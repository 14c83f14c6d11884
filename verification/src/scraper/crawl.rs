//! The crawl of one channel, page by page, from its newest message to its
//! oldest.

use vstd::prelude::*;

use super::{
    has_dm_name, is_dm_name, pause_for, rate_limit_pause, reply_pacing, reply_wait,
    ChannelDescriptor, Pause, Scraper, ScraperError, SECONDS_TO_WAIT_IN_CASE_OF_HTTP_503,
};
use crate::discord_api::get_channel_messages::{
    body_messages, channel_msgs_before_msg_url, channel_msgs_url, page_view, Message, MessageView,
};
use crate::discord_api::{
    DiscordApi, DiscordApiError, HttpRequest, HttpResponse, DISCORD_API_BASE_URL,
};
use crate::json::json_text_value;
use crate::utils::message_saver::{jsonl_dir, jsonl_path, SaveTarget};

verus! {

/// The position of a crawl between two fetches. A step uses the position
/// up and hands out the next one, so that a crawl that is done or has
/// failed has no position left to fetch from.
#[derive(Debug, PartialEq, Eq, Structural)]
pub struct Crawl {
    pub channel_id: u64,
    /// The id of the oldest message seen so far: the next page is asked for
    /// before it. Zero asks for the newest page.
    pub cursor: u64,
    /// The mode of the crawl's requests: the formatted one for a channel
    /// with a name of its own, the plain one for a channel whose name was
    /// made up. A step hands it on unchanged.
    pub format_request: bool,
}

/// What a fetch came to, as far as the crawl depends on it.
pub enum FetchKind {
    /// The page that was read, newest message first.
    Page(Seq<MessageView>),
    /// The service answered with HTTP 503.
    Unavailable,
    /// Any other failure.
    Fatal,
}

/// Where a crawl stands after a step.
pub enum NextKind {
    Fetch(Crawl),
    Done,
    Failed,
}

/// The mathematical value of a [`CrawlStep`].
pub struct StepView {
    pub pause: Option<Pause>,
    pub page: Option<Seq<MessageView>>,
    pub next: NextKind,
}

/// Where a crawl stands after a step: it fetches again, it is done, or it
/// has failed for good.
#[derive(Debug)]
pub enum CrawlNext {
    Fetch(Crawl),
    Done,
    Failed(ScraperError),
}

/// What a caller does after a fetch, in this order: wait for `pause`, hand
/// `page` to the sink, and go where `next` says. The step does not ask what
/// the sink made of the page: a page that was not kept does not stop the
/// crawl.
#[derive(Debug)]
pub struct CrawlStep {
    pub pause: Option<Pause>,
    pub page: Option<Vec<Message>>,
    pub next: CrawlNext,
}

impl View for CrawlStep {
    type V = StepView;

    open spec fn view(&self) -> StepView {
        StepView {
            pause: self.pause,
            page: match self.page {
                Some(page) => Some(page_view(page@)),
                None => None,
            },
            next: match self.next {
                CrawlNext::Fetch(crawl) => NextKind::Fetch(crawl),
                CrawlNext::Done => NextKind::Done,
                CrawlNext::Failed(_) => NextKind::Failed,
            },
        }
    }
}

/// What the outcome of a fetch is to a crawl.
pub open spec fn fetch_kind(fetched: Result<Vec<Message>, DiscordApiError>) -> FetchKind {
    match fetched {
        Ok(page) => FetchKind::Page(page_view(page@)),
        Err(DiscordApiError::UnexpectedResponseStatusCode(status, _)) => if status == 503 {
            FetchKind::Unavailable
        } else {
            FetchKind::Fatal
        },
        Err(_) => FetchKind::Fatal,
    }
}

/// The step that a crawl takes on the outcome of a fetch, where the answer
/// declared a pacing of `wait` milliseconds.
///
/// A page with messages is handed on, and the cursor moves to its last
/// message, the oldest. An empty page ends the crawl. HTTP 503 asks for the
/// same fetch again after a fixed wait. Anything else fails the crawl.
pub open spec fn crawl_step(crawl: Crawl, fetched: FetchKind, wait: u16) -> StepView {
    match fetched {
        FetchKind::Page(page) => if page.len() == 0 {
            StepView { pause: rate_limit_pause(wait), page: None, next: NextKind::Done }
        } else {
            StepView {
                pause: rate_limit_pause(wait),
                page: Some(page),
                next: NextKind::Fetch(Crawl { cursor: page.last().message_id, ..crawl }),
            }
        },
        FetchKind::Unavailable => StepView {
            pause: Some(Pause::ServiceUnavailable(SECONDS_TO_WAIT_IN_CASE_OF_HTTP_503)),
            page: None,
            next: NextKind::Fetch(crawl),
        },
        FetchKind::Fatal => StepView {
            pause: rate_limit_pause(wait),
            page: None,
            next: NextKind::Failed,
        },
    }
}

/// What an answer to a request for a page of channel `channel_id` comes to.
pub open spec fn reply_kind(reply: Result<HttpResponse, String>, channel_id: u64) -> FetchKind {
    match reply {
        Ok(response) => if response.status == 200 {
            match json_text_value(response.body@) {
                Some(body) => FetchKind::Page(body_messages(body, channel_id)),
                None => FetchKind::Fatal,
            }
        } else if response.status == 503 {
            FetchKind::Unavailable
        } else {
            FetchKind::Fatal
        },
        Err(_) => FetchKind::Fatal,
    }
}

/// Whether `error` is the failure that the answer `reply` stands for.
pub open spec fn is_reply_error(error: ScraperError, reply: Result<HttpResponse, String>) -> bool {
    match reply {
        Ok(response) => if response.status == 200 {
            error matches ScraperError::DiscordApiError(DiscordApiError::ParseResponse(_))
        } else {
            error == ScraperError::DiscordApiError(
                DiscordApiError::UnexpectedResponseStatusCode(response.status, Some(response)),
            )
        },
        Err(reason) => error == ScraperError::DiscordApiError(
            DiscordApiError::SendingRequest(reason),
        ),
    }
}

/// The relative URL of the page that a crawl asks for at `cursor`.
pub open spec fn page_url(channel_id: u64, cursor: u64) -> Seq<char> {
    if cursor == 0 {
        channel_msgs_url(channel_id)
    } else {
        channel_msgs_before_msg_url(channel_id, cursor)
    }
}

impl Crawl {
    /// The crawl of `channel` before its first fetch: the cursor stands at
    /// the channel's newest message.
    pub fn new(channel: &ChannelDescriptor) -> (r: Crawl)
        ensures
            r == (Crawl {
                channel_id: channel.id,
                cursor: channel.last_message_id,
                format_request: !is_dm_name(channel.name@),
            }),
    {
        Crawl {
            channel_id: channel.id,
            cursor: channel.last_message_id,
            format_request: !has_dm_name(channel.name.as_str()),
        }
    }

    /// Takes the step that follows the outcome `fetched` of a fetch, where
    /// the answer declared a pacing of `wait` milliseconds.
    pub fn on_fetched(self, fetched: Result<Vec<Message>, DiscordApiError>, wait: u16) -> (r:
        CrawlStep)
        ensures
            r@ == crawl_step(self, fetch_kind(fetched), wait),
            match r.next {
                CrawlNext::Failed(error) => fetched matches Err(e) && error
                    == ScraperError::DiscordApiError(e),
                _ => true,
            },
    {
        match fetched {
            Ok(page) => {
                if page.len() == 0 {
                    CrawlStep { pause: pause_for(wait), page: None, next: CrawlNext::Done }
                } else {
                    let cursor = page[page.len() - 1].message_id;
                    assert(page_view(page@).last() == page[page.len() - 1]@);
                    CrawlStep {
                        pause: pause_for(wait),
                        page: Some(page),
                        next: CrawlNext::Fetch(
                            Crawl {
                                channel_id: self.channel_id,
                                cursor,
                                format_request: self.format_request,
                            },
                        ),
                    }
                }
            },
            Err(DiscordApiError::UnexpectedResponseStatusCode(503, _)) => CrawlStep {
                pause: Some(Pause::ServiceUnavailable(SECONDS_TO_WAIT_IN_CASE_OF_HTTP_503)),
                page: None,
                next: CrawlNext::Fetch(self),
            },
            Err(error) => CrawlStep {
                pause: pause_for(wait),
                page: None,
                next: CrawlNext::Failed(ScraperError::DiscordApiError(error)),
            },
        }
    }

    /// Takes the step that follows the answer `reply` to the crawl's last
    /// request; an `Err` says why no answer came.
    pub fn advance(self, reply: Result<HttpResponse, String>) -> (r: CrawlStep)
        ensures
            r@ == crawl_step(
                self,
                reply_kind(reply, self.channel_id),
                reply_wait(reply),
            ),
            match r.next {
                CrawlNext::Failed(error) => is_reply_error(error, reply),
                _ => true,
            },
    {
        match reply {
            Ok(response) => {
                let wait = reply_pacing(&response);
                let fetched = DiscordApi::read_channel_msgs(response, self.channel_id);
                self.on_fetched(fetched, wait)
            },
            Err(reason) => self.on_fetched(Err(DiscordApiError::SendingRequest(reason)), 0),
        }
    }
}

/// How a crawl begins: where it stands, the directory that has to exist and
/// the file that the messages go to. The two are `None` for a database.
#[derive(Debug)]
pub struct CrawlPlan {
    pub crawl: Crawl,
    pub directory: Option<String>,
    pub output_path: Option<String>,
}

/// Whether `plan` begins the crawl of `channel` into `save_target`.
pub open spec fn is_crawl_plan(
    plan: CrawlPlan,
    channel: ChannelDescriptor,
    save_target: SaveTarget,
    backup: bool,
) -> bool {
    &&& plan.crawl == (Crawl {
        channel_id: channel.id,
        cursor: channel.last_message_id,
        format_request: !is_dm_name(channel.name@),
    })
    &&& match save_target {
        SaveTarget::Jsonl(dir) => {
            &&& plan.directory matches Some(directory)
            &&& directory@ == jsonl_dir(dir@, backup)
            &&& plan.output_path matches Some(path)
            &&& path@ == jsonl_path(dir@, channel.name@, backup)
        },
        SaveTarget::Sql(_) => plan.directory is None && plan.output_path is None,
    }
}

impl Scraper {
    /// The request for the page of channel `channel_id` before message
    /// `message_id`, or for the newest page where `message_id` is zero.
    pub fn scrape_msgs_before_msg(&self, channel_id: u64, message_id: u64) -> (r: HttpRequest)
        ensures
            r.url@ == DISCORD_API_BASE_URL@ + "/"@ + page_url(channel_id, message_id),
            r.authorization@ == "Bot "@ + self.token(),
    {
        if message_id == 0 {
            self.discord_api_client.get_channel_msgs(channel_id)
        } else {
            self.discord_api_client.get_channel_msgs_before_msg(channel_id, message_id)
        }
    }

    /// Begins the crawl of a resolved channel into `save_target`.
    pub fn scrape_channel(&self, channel: &ChannelDescriptor, save_target: &SaveTarget) -> (r:
        CrawlPlan)
        ensures
            is_crawl_plan(r, *channel, *save_target, false),
    {
        CrawlPlan {
            crawl: Crawl::new(channel),
            directory: save_target.messages_dir(false),
            output_path: save_target.output_path(channel.name.as_str(), false),
        }
    }

    /// Begins the crawl of a resolved channel into the part of
    /// `save_target` that a backup keeps.
    pub fn scrape_channel_backup(
        &self,
        channel: &ChannelDescriptor,
        save_target: &SaveTarget,
    ) -> (r: CrawlPlan)
        ensures
            is_crawl_plan(r, *channel, *save_target, true),
    {
        CrawlPlan {
            crawl: Crawl::new(channel),
            directory: save_target.messages_dir(true),
            output_path: save_target.output_path(channel.name.as_str(), true),
        }
    }
}

/// The steps that a crawl takes where its fetches come to the outcomes of
/// `script`, one after the other, each with the pacing that its answer
/// declared. The crawl stops at the step that ends or fails it, whatever
/// the script still holds.
pub open spec fn crawl_steps(crawl: Crawl, script: Seq<(FetchKind, u16)>) -> Seq<StepView>
    decreases script.len(),
{
    if script.len() == 0 {
        Seq::empty()
    } else {
        let step = crawl_step(crawl, script[0].0, script[0].1);
        match step.next {
            NextKind::Fetch(next) => seq![step] + crawl_steps(next, script.skip(1)),
            _ => seq![step],
        }
    }
}

/// The pages that the steps `steps` hand to the sink, in their order.
pub open spec fn saved_pages(steps: Seq<StepView>) -> Seq<Seq<MessageView>>
    decreases steps.len(),
{
    if steps.len() == 0 {
        Seq::empty()
    } else {
        match steps[0].page {
            Some(page) => seq![page] + saved_pages(steps.skip(1)),
            None => saved_pages(steps.skip(1)),
        }
    }
}

/// Whether a fetch brought a page with messages.
pub open spec fn is_full_page(fetched: FetchKind) -> bool {
    fetched matches FetchKind::Page(page) && page.len() > 0
}

/// Whether a script is `n` fetches that each bring a page with messages,
/// and then one that brings an empty page.
pub open spec fn pages_then_empty(script: Seq<(FetchKind, u16)>, n: nat) -> bool {
    &&& script.len() == n + 1
    &&& forall|i: int|
        0 <= i < n ==> is_full_page((#[trigger] script[i]).0)
    &&& script[n as int].0 == FetchKind::Page(Seq::empty())
}

/// After a page with messages the cursor is the id of the page's last
/// message, and nothing else of the crawl has changed.
pub proof fn lemma_cursor_is_last_message(crawl: Crawl, page: Seq<MessageView>, wait: u16)
    requires
        page.len() > 0,
    ensures
        crawl_step(crawl, FetchKind::Page(page), wait).next == NextKind::Fetch(
            Crawl { cursor: page.last().message_id, ..crawl },
        ),
        crawl_step(crawl, FetchKind::Page(page), wait).page == Some(page),
{
}

/// A step completes the crawl exactly where the fetch brought an empty
/// page, and then hands nothing to the sink. It fails the crawl exactly
/// where the fetch failed otherwise than by HTTP 503. In every other case
/// the crawl fetches again.
pub proof fn lemma_done_iff_empty_page(crawl: Crawl, fetched: FetchKind, wait: u16)
    ensures
        crawl_step(crawl, fetched, wait).next is Done <==> (fetched matches FetchKind::Page(page)
            && page.len() == 0),
        crawl_step(crawl, fetched, wait).next is Done ==> crawl_step(crawl, fetched, wait).page
            is None,
        crawl_step(crawl, fetched, wait).next is Failed <==> fetched is Fatal,
        crawl_step(crawl, fetched, wait).next is Fetch <==> (is_full_page(fetched)
            || fetched is Unavailable),
{
}

/// Where `n` fetches each bring a page with messages and the next brings an
/// empty page, the crawl takes `n + 1` steps and ends with the last; it
/// hands exactly the `n` pages to the sink, in the order in which they
/// came.
pub proof fn lemma_every_page_is_saved_once(crawl: Crawl, script: Seq<(FetchKind, u16)>, n: nat)
    requires
        pages_then_empty(script, n),
    ensures
        crawl_steps(crawl, script).len() == n + 1,
        crawl_steps(crawl, script).last().next is Done,
        forall|i: int| 0 <= i < n ==> (#[trigger] crawl_steps(crawl, script)[i]).next is Fetch,
        saved_pages(crawl_steps(crawl, script)).len() == n,
        forall|i: int|
            0 <= i < n ==> #[trigger] saved_pages(crawl_steps(crawl, script))[i]
                == script[i].0->Page_0,
    decreases n,
{
    let steps = crawl_steps(crawl, script);
    let step = crawl_step(crawl, script[0].0, script[0].1);
    if n == 0 {
        assert(steps =~= seq![step]);
        assert(steps.skip(1) =~= Seq::<StepView>::empty());
        assert(saved_pages(steps.skip(1)) =~= Seq::<Seq<MessageView>>::empty());
    } else {
        let next = step.next->Fetch_0;
        let rest = script.skip(1);
        assert(pages_then_empty(rest, (n - 1) as nat)) by {
            assert forall|i: int| 0 <= i < n - 1 implies is_full_page((#[trigger] rest[i]).0) by {
                assert(rest[i] == script[i + 1]);
            }
        }
        lemma_every_page_is_saved_once(next, rest, (n - 1) as nat);
        let tail = crawl_steps(next, rest);
        assert(steps =~= seq![step] + tail);
        assert(steps.skip(1) =~= tail);
        assert(steps.last() == tail.last());
        assert forall|i: int| 0 <= i < n implies (#[trigger] steps[i]).next is Fetch by {
            if i > 0 {
                assert(steps[i] == tail[i - 1]);
            }
        }
        let saved = saved_pages(steps);
        assert(saved =~= seq![step.page->0] + saved_pages(tail));
        assert forall|i: int| 0 <= i < n implies #[trigger] saved[i] == script[i].0->Page_0 by {
            if i > 0 {
                assert(saved[i] == saved_pages(tail)[i - 1]);
                assert(rest[i - 1] == script[i]);
            }
        }
    }
}

/// The pause after a fetch that did not meet HTTP 503 is the one that the
/// answer's pacing asks for, whatever the mode of the crawl and wherever
/// its cursor stands.
pub proof fn lemma_pacing_is_kept_in_every_mode(crawl: Crawl, fetched: FetchKind, wait: u16)
    requires
        !(fetched is Unavailable),
    ensures
        crawl_step(crawl, fetched, wait).pause == rate_limit_pause(wait),
{
}

/// Whether a script is `k` fetches that meet HTTP 503, and then one that
/// brings a page.
pub open spec fn unavailable_then_page(
    script: Seq<(FetchKind, u16)>,
    k: nat,
    page: Seq<MessageView>,
) -> bool {
    &&& script.len() == k + 1
    &&& forall|i: int| 0 <= i < k ==> (#[trigger] script[i]).0 == FetchKind::Unavailable
    &&& script[k as int].0 == FetchKind::Page(page)
}

/// Where `k` fetches meet HTTP 503 and the next brings a page with
/// messages, the crawl waits the fixed time `k` times, asks for the same
/// page each time, and hands the page to the sink once.
pub proof fn lemma_unavailable_is_retried(
    crawl: Crawl,
    script: Seq<(FetchKind, u16)>,
    k: nat,
    page: Seq<MessageView>,
)
    requires
        unavailable_then_page(script, k, page),
        page.len() > 0,
    ensures
        crawl_steps(crawl, script).len() == k + 1,
        forall|i: int|
            0 <= i < k ==> #[trigger] crawl_steps(crawl, script)[i] == (StepView {
                pause: Some(Pause::ServiceUnavailable(SECONDS_TO_WAIT_IN_CASE_OF_HTTP_503)),
                page: None,
                next: NextKind::Fetch(crawl),
            }),
        crawl_steps(crawl, script)[k as int] == crawl_step(
            crawl,
            FetchKind::Page(page),
            script[k as int].1,
        ),
        saved_pages(crawl_steps(crawl, script)) == seq![page],
    decreases k,
{
    let steps = crawl_steps(crawl, script);
    let step = crawl_step(crawl, script[0].0, script[0].1);
    let rest = script.skip(1);
    if k == 0 {
        assert(rest =~= Seq::<(FetchKind, u16)>::empty());
        let next = step.next->Fetch_0;
        assert(crawl_steps(next, rest) =~= Seq::<StepView>::empty());
        assert(steps =~= seq![step]);
        assert(steps.skip(1) =~= Seq::<StepView>::empty());
        assert(saved_pages(steps.skip(1)) =~= Seq::<Seq<MessageView>>::empty());
        assert(steps[0].page == Some(page));
        assert(saved_pages(steps) =~= seq![page]);
    } else {
        assert(unavailable_then_page(rest, (k - 1) as nat, page)) by {
            assert forall|i: int| 0 <= i < k - 1 implies (#[trigger] rest[i]).0
                == FetchKind::Unavailable by {
                assert(rest[i] == script[i + 1]);
            }
        }
        lemma_unavailable_is_retried(crawl, rest, (k - 1) as nat, page);
        let tail = crawl_steps(crawl, rest);
        assert(steps =~= seq![step] + tail);
        assert(steps.skip(1) =~= tail);
        assert forall|i: int| 0 <= i < k implies #[trigger] steps[i] == (StepView {
            pause: Some(Pause::ServiceUnavailable(SECONDS_TO_WAIT_IN_CASE_OF_HTTP_503)),
            page: None,
            next: NextKind::Fetch(crawl),
        }) by {
            if i > 0 {
                assert(steps[i] == tail[i - 1]);
            }
        }
        assert(steps[k as int] == tail[k - 1]);
        assert(rest[k - 1] == script[k as int]);
    }
}

} // verus!
