use spldcrdchlscrp::discord_api::{
    DiscordApiError, FoundableStuff, HttpRequest, HttpResponse, Message, ParseError,
};
use spldcrdchlscrp::json::Json;
use spldcrdchlscrp::scraper::{
    after_channel, backup_entry, convert_jsonl_file_into_json, BackupNext, elapsed_minutes, has_dm_name, json_file_name,
    ChannelDescriptor, Crawl, CrawlNext, CrawlStep, FileConversionError, InvalidPathError, Pause,
    Resolution, Scraper, ScraperError, SECONDS_TO_WAIT_IN_CASE_OF_HTTP_503,
};
use spldcrdchlscrp::utils::message_saver::SaveTarget;

fn answer(status: u16, body: &str) -> Result<HttpResponse, String> {
    Ok(HttpResponse {
        status,
        ratelimit_remaining: None,
        ratelimit_reset_after: None,
        body: body.as_bytes().to_vec(),
    })
}

fn paced(status: u16, body: &str, remaining: &str, reset_after: &str) -> Result<HttpResponse, String> {
    Ok(HttpResponse {
        status,
        ratelimit_remaining: Some(remaining.to_string()),
        ratelimit_reset_after: Some(reset_after.to_string()),
        body: body.as_bytes().to_vec(),
    })
}

fn page_body(ids: &[u64]) -> String {
    let records: Vec<String> = ids
        .iter()
        .map(|id| format!("{{\"id\": \"{}\", \"author\": {{\"id\": \"1\"}}, \"content\": \"m{}\"}}", id, id))
        .collect();
    format!("[{}]", records.join(","))
}

fn named(id: u64, name: &str, last_message_id: u64) -> ChannelDescriptor {
    ChannelDescriptor { id, name: name.to_string(), last_message_id }
}

fn at(cursor: u64, format_request: bool) -> Crawl {
    Crawl { channel_id: 5, cursor, format_request }
}

struct Run {
    requests: Vec<String>,
    pauses: Vec<Pause>,
    saved: Vec<Vec<Message>>,
    end: CrawlNext,
}

fn run(api: &Scraper, start: Crawl, replies: Vec<Result<HttpResponse, String>>) -> Run {
    let mut crawl = start;
    let mut out = Run { requests: vec![], pauses: vec![], saved: vec![], end: CrawlNext::Done };
    for reply in replies {
        let request: HttpRequest = api.scrape_msgs_before_msg(crawl.channel_id, crawl.cursor);
        out.requests.push(request.url);
        let step: CrawlStep = crawl.advance(reply);
        if let Some(pause) = step.pause {
            out.pauses.push(pause);
        }
        if let Some(page) = step.page {
            out.saved.push(page);
        }
        match step.next {
            CrawlNext::Fetch(next) => crawl = next,
            end => {
                out.end = end;
                return out;
            }
        }
    }
    out.end = CrawlNext::Fetch(crawl);
    out
}

#[test]
fn the_wait_after_a_503_is_twenty_seconds() {
    assert_eq!(SECONDS_TO_WAIT_IN_CASE_OF_HTTP_503, 20);
    assert_eq!(Pause::ServiceUnavailable(20).millis(), 20_000);
    assert_eq!(Pause::ServiceUnavailable(255).millis(), 255_000);
    assert_eq!(Pause::RateLimit(1500).millis(), 1500);
    assert_eq!(Pause::RateLimit(0).millis(), 0);
}

#[test]
fn a_crawl_begins_at_the_newest_message() {
    let crawl = Crawl::new(&named(5, "general", 900));
    assert_eq!(crawl, Crawl { channel_id: 5, cursor: 900, format_request: true });
    let crawl = Crawl::new(&named(5, "dm_5", 0));
    assert_eq!(crawl, Crawl { channel_id: 5, cursor: 0, format_request: false });
}

#[test]
fn the_cursor_decides_which_page_is_asked_for() {
    let scraper = Scraper::new("t", false);
    assert_eq!(
        scraper.scrape_msgs_before_msg(5, 0).url,
        "https://discord.com/api/v9/channels/5/messages?limit=100"
    );
    assert_eq!(
        scraper.scrape_msgs_before_msg(5, 900).url,
        "https://discord.com/api/v9/channels/5/messages?before=900&limit=100"
    );
    assert_eq!(scraper.scrape_msgs_before_msg(5, 900).authorization, "Bot t");
}

#[test]
fn the_cursor_moves_to_the_last_message_of_a_page() {
    let step = at(900, true).advance(answer(200, &page_body(&[890, 880, 870])));
    assert_eq!(step.pause, None);
    assert_eq!(step.page.as_ref().map(|page| page.len()), Some(3));
    assert_eq!(step.page.as_ref().unwrap()[2].message_id, 870);
    assert!(matches!(
        step.next,
        CrawlNext::Fetch(Crawl { channel_id: 5, cursor: 870, format_request: true })
    ));
}

#[test]
fn the_cursor_follows_the_page_even_where_it_is_not_the_smallest_id() {
    let step = at(0, false).advance(answer(200, &page_body(&[10, 30, 20])));
    assert!(matches!(step.next, CrawlNext::Fetch(Crawl { cursor: 20, format_request: false, .. })));
}

#[test]
fn an_empty_page_ends_the_crawl() {
    let step = at(900, true).advance(answer(200, "[]"));
    assert!(step.page.is_none());
    assert!(matches!(step.next, CrawlNext::Done));
}

#[test]
fn a_page_of_records_that_hold_no_message_ends_the_crawl() {
    let step = at(900, true).advance(answer(200, r#"[{"id": "1"}, {"content": "x"}]"#));
    assert!(step.page.is_none());
    assert!(matches!(step.next, CrawlNext::Done));
}

#[test]
fn n_pages_and_an_empty_one_give_n_saves() {
    let api = Scraper::new("t", false);
    for n in 0..6u64 {
        let mut replies = Vec::new();
        for k in 0..n {
            replies.push(answer(200, &page_body(&[1000 - 2 * k, 999 - 2 * k])));
        }
        replies.push(answer(200, "[]"));
        replies.push(answer(200, &page_body(&[1, 2, 3])));
        let ran = run(&api, Crawl { channel_id: 5, cursor: 0, format_request: true }, replies);
        assert_eq!(ran.saved.len() as u64, n);
        assert_eq!(ran.requests.len() as u64, n + 1);
        assert!(matches!(ran.end, CrawlNext::Done));
        for (k, page) in ran.saved.iter().enumerate() {
            assert_eq!(page[0].message_id, 1000 - 2 * k as u64);
            assert_eq!(page[1].message_id, 999 - 2 * k as u64);
        }
    }
}

#[test]
fn pages_are_asked_for_from_newest_to_oldest() {
    let api = Scraper::new("t", false);
    let replies = vec![
        answer(200, &page_body(&[30, 29])),
        answer(200, &page_body(&[28, 27])),
        answer(200, "[]"),
    ];
    let ran = run(&api, Crawl { channel_id: 5, cursor: 31, format_request: true }, replies);
    assert_eq!(
        ran.requests,
        vec![
            "https://discord.com/api/v9/channels/5/messages?before=31&limit=100",
            "https://discord.com/api/v9/channels/5/messages?before=29&limit=100",
            "https://discord.com/api/v9/channels/5/messages?before=27&limit=100",
        ]
    );
}

#[test]
fn two_503_and_a_page_give_one_save_after_two_waits() {
    let api = Scraper::new("t", false);
    let replies = vec![
        answer(503, "upstream connect error"),
        answer(503, ""),
        answer(200, &page_body(&[8, 7])),
    ];
    let ran = run(&api, Crawl { channel_id: 5, cursor: 9, format_request: true }, replies);
    assert_eq!(ran.pauses, vec![Pause::ServiceUnavailable(20), Pause::ServiceUnavailable(20)]);
    assert_eq!(ran.saved.len(), 1);
    assert_eq!(
        ran.saved[0],
        vec![
            Message { channel_id: 5, author_id: 1, message_id: 8, text: "m8".to_string(), has_media: false },
            Message { channel_id: 5, author_id: 1, message_id: 7, text: "m7".to_string(), has_media: false },
        ]
    );
    assert_eq!(ran.requests.len(), 3);
    assert_eq!(ran.requests[0], ran.requests[1]);
    assert_eq!(ran.requests[1], ran.requests[2]);
    assert!(matches!(ran.end, CrawlNext::Fetch(Crawl { cursor: 7, .. })));
}

#[test]
fn a_503_is_retried_whatever_its_headers_say() {
    let step = at(9, true).advance(paced(503, "", "0", "1.5"));
    assert_eq!(step.pause, Some(Pause::ServiceUnavailable(20)));
    assert!(step.page.is_none());
    assert!(matches!(step.next, CrawlNext::Fetch(next) if next == at(9, true)));
}

#[test]
fn any_other_failure_ends_the_crawl_for_good() {
    for status in [400u16, 401, 403, 404, 429, 500, 502, 504] {
        let step = at(9, true).advance(answer(status, "{}"));
        assert_eq!(step.pause, None);
        assert!(step.page.is_none());
        assert!(matches!(
            step.next,
            CrawlNext::Failed(ScraperError::DiscordApiError(
                DiscordApiError::UnexpectedResponseStatusCode(code, Some(_))
            )) if code == status
        ));
    }
    let step = at(9, true).advance(Err("connection reset".to_string()));
    assert!(matches!(
        step.next,
        CrawlNext::Failed(ScraperError::DiscordApiError(DiscordApiError::SendingRequest(reason)))
            if reason == "connection reset"
    ));
    let step = at(9, true).advance(answer(200, "<html>"));
    assert!(matches!(
        step.next,
        CrawlNext::Failed(ScraperError::DiscordApiError(DiscordApiError::ParseResponse(
            ParseError::DeserializeBodyIntoJson(_)
        )))
    ));
}

#[test]
fn a_failure_stops_a_run_before_the_next_page() {
    let api = Scraper::new("t", false);
    let replies = vec![
        answer(200, &page_body(&[8, 7])),
        answer(500, ""),
        answer(200, &page_body(&[6, 5])),
    ];
    let ran = run(&api, Crawl { channel_id: 5, cursor: 9, format_request: true }, replies);
    assert_eq!(ran.saved.len(), 1);
    assert_eq!(ran.requests.len(), 2);
    assert!(matches!(ran.end, CrawlNext::Failed(_)));
}

#[test]
fn the_declared_pacing_is_kept_for_a_named_channel() {
    let step = at(9, true).advance(paced(200, &page_body(&[8]), "0", "1.5"));
    assert_eq!(step.pause, Some(Pause::RateLimit(1500)));
    assert_eq!(step.pause.unwrap().millis(), 1500);
    assert!(step.page.is_some());
    let step = at(9, true).advance(paced(200, &page_body(&[8]), "5", "1.5"));
    assert_eq!(step.pause, None);
    let step = at(9, true).advance(paced(200, "[]", "0", "0.25"));
    assert_eq!(step.pause, Some(Pause::RateLimit(250)));
    assert!(matches!(step.next, CrawlNext::Done));
    let step = at(9, true).advance(paced(200, "[]", "0", "0"));
    assert_eq!(step.pause, None);
}

#[test]
fn the_declared_pacing_is_kept_for_a_channel_without_a_name() {
    let step = at(9, false).advance(paced(200, &page_body(&[8]), "0", "1.5"));
    assert_eq!(step.pause, Some(Pause::RateLimit(1500)));
    assert!(step.page.is_some());
    assert!(matches!(step.next, CrawlNext::Fetch(Crawl { cursor: 8, format_request: false, .. })));
    let step = at(9, false).advance(paced(200, "[]", "0", "0.2"));
    assert_eq!(step.pause, Some(Pause::RateLimit(200)));
    assert!(matches!(step.next, CrawlNext::Done));
    let step = at(9, false).advance(paced(200, &page_body(&[8]), "2", "1.5"));
    assert_eq!(step.pause, None);
}

#[test]
fn the_mode_is_handed_on_unchanged() {
    for mode in [true, false] {
        let step = at(9, mode).advance(answer(200, &page_body(&[8, 7])));
        assert!(matches!(step.next, CrawlNext::Fetch(next) if next == at(7, mode)));
        let step = at(9, mode).advance(answer(503, ""));
        assert!(matches!(step.next, CrawlNext::Fetch(next) if next == at(9, mode)));
    }
}

#[test]
fn a_failed_entry_ends_the_backup() {
    assert!(matches!(after_channel(Ok(())), BackupNext::GoOn));
    assert!(matches!(
        after_channel(Err(ScraperError::SaveError("disk full".to_string()))),
        BackupNext::Stop(ScraperError::SaveError(reason)) if reason == "disk full"
    ));
    assert!(matches!(
        after_channel(Err(ScraperError::DiscordApiError(DiscordApiError::UnexpectedResponseStatusCode(404, None)))),
        BackupNext::Stop(ScraperError::DiscordApiError(DiscordApiError::UnexpectedResponseStatusCode(404, None)))
    ));
}

#[test]
fn the_entries_after_a_failed_one_are_left_alone() {
    let outcomes: Vec<Result<(), ScraperError>> = vec![
        Ok(()),
        Ok(()),
        Err(ScraperError::SaveError("third".to_string())),
        Ok(()),
        Err(ScraperError::SaveError("fifth".to_string())),
    ];
    let mut worked = 0;
    let mut result: Result<(), ScraperError> = Ok(());
    for outcome in outcomes {
        worked += 1;
        match after_channel(outcome) {
            BackupNext::GoOn => {}
            BackupNext::Stop(error) => {
                result = Err(error);
                break;
            }
        }
    }
    assert_eq!(worked, 3);
    assert!(matches!(result, Err(ScraperError::SaveError(reason)) if reason == "third"));
}

#[test]
fn on_fetched_takes_the_outcome_of_a_fetch() {
    let page = vec![Message { channel_id: 5, author_id: 1, message_id: 4, text: "x".to_string(), has_media: false }];
    let step = at(9, true).on_fetched(Ok(page.clone()), 300);
    assert_eq!(step.pause, Some(Pause::RateLimit(300)));
    assert_eq!(step.page, Some(page));
    assert!(matches!(step.next, CrawlNext::Fetch(Crawl { cursor: 4, .. })));
    let step = at(9, true).on_fetched(Err(DiscordApiError::UnexpectedResponseStatusCode(503, None)), 300);
    assert_eq!(step.pause, Some(Pause::ServiceUnavailable(20)));
    assert!(matches!(step.next, CrawlNext::Fetch(next) if next == at(9, true)));
    let step = at(9, true).on_fetched(Err(DiscordApiError::NotFound(FoundableStuff::Channel(None))), 0);
    assert!(matches!(
        step.next,
        CrawlNext::Failed(ScraperError::DiscordApiError(DiscordApiError::NotFound(
            FoundableStuff::Channel(None)
        )))
    ));
}

#[test]
fn a_channel_with_a_name_is_resolved_at_once() {
    let scraper = Scraper::new("t", false);
    assert_eq!(scraper.channel_info_request(5).url, "https://discord.com/api/v9/channels/5");
    let step = scraper.get_channel_info(5, answer(200, r#"{"name": "general", "last_message_id": "900"}"#));
    assert_eq!(step.pause, None);
    match step.next {
        Resolution::Resolved(channel) => {
            assert_eq!(channel.id, 5);
            assert_eq!(channel.name, "general");
            assert_eq!(channel.last_message_id, 900);
            assert!(Crawl::new(&channel).format_request);
        }
        other => panic!("{:?}", other),
    }
}

#[test]
fn a_channel_without_a_name_gets_a_made_up_one() {
    let scraper = Scraper::new("t", true);
    let unnamed = r#"{"id": "77", "type": 1, "last_message_id": "900"}"#;
    let step = scraper.get_channel_info(77, answer(200, unnamed));
    let request = match step.next {
        Resolution::AskAgain(request) => request,
        other => panic!("{:?}", other),
    };
    assert_eq!(request.url, "https://discord.com/api/v9/channels/77");
    assert_eq!(request.authorization, "Bot t");
    let resolved = Scraper::get_dm_channel_info(77, &answer(200, unnamed));
    assert_eq!(resolved.pause, None);
    let channel = resolved.channel;
    assert_eq!(channel.id, 77);
    assert_eq!(channel.name, "dm_77");
    assert_eq!(channel.last_message_id, 900);
    assert!(has_dm_name(&channel.name));
    let crawl = Crawl::new(&channel);
    assert!(!crawl.format_request);
    assert_eq!(crawl.cursor, 900);
}

#[test]
fn the_pacing_of_the_second_answer_is_kept() {
    let unnamed = r#"{"last_message_id": "900"}"#;
    let resolved = Scraper::get_dm_channel_info(77, &paced(200, unnamed, "0", "1.5"));
    assert_eq!(resolved.pause, Some(Pause::RateLimit(1500)));
    assert_eq!(resolved.channel.last_message_id, 900);
    let resolved = Scraper::get_dm_channel_info(77, &paced(200, unnamed, "3", "1.5"));
    assert_eq!(resolved.pause, None);
    let resolved = Scraper::get_dm_channel_info(77, &paced(500, unnamed, "0", "1.5"));
    assert_eq!(resolved.pause, None);
    assert_eq!(resolved.channel.last_message_id, 0);
    let resolved = Scraper::get_dm_channel_info(77, &paced(200, "not json", "0", "1.5"));
    assert_eq!(resolved.pause, Some(Pause::RateLimit(1500)));
    assert_eq!(resolved.channel.last_message_id, 0);
}

#[test]
fn a_second_answer_that_fails_gives_the_newest_page() {
    for reply in [
        answer(500, ""),
        answer(200, "{}"),
        answer(200, "not json"),
        answer(200, r#"{"last_message_id": null}"#),
        Err("timed out".to_string()),
    ] {
        let resolved = Scraper::get_dm_channel_info(77, &reply);
        assert_eq!(resolved.pause, None);
        assert_eq!(resolved.channel.name, "dm_77");
        assert_eq!(resolved.channel.last_message_id, 0);
        let crawl = Crawl::new(&resolved.channel);
        assert_eq!(crawl, Crawl { channel_id: 77, cursor: 0, format_request: false });
    }
}

#[test]
fn any_other_lack_fails_the_resolution() {
    let scraper = Scraper::new("t", false);
    let step = scraper.get_channel_info(5, answer(200, r#"{"name": "general"}"#));
    assert!(matches!(
        step.next,
        Resolution::Failed(ScraperError::DiscordApiError(DiscordApiError::NotFound(
            FoundableStuff::Message(None)
        )))
    ));
    let step = scraper.get_channel_info(5, answer(200, r#"{}"#));
    assert!(matches!(
        step.next,
        Resolution::Failed(ScraperError::DiscordApiError(DiscordApiError::NotFound(
            FoundableStuff::Message(None)
        )))
    ));
    let step = scraper.get_channel_info(5, answer(200, "[]"));
    assert!(matches!(
        step.next,
        Resolution::Failed(ScraperError::DiscordApiError(DiscordApiError::NotFound(
            FoundableStuff::Channel(Some(5))
        )))
    ));
    let step = scraper.get_channel_info(5, answer(404, "{}"));
    assert!(matches!(
        step.next,
        Resolution::Failed(ScraperError::DiscordApiError(
            DiscordApiError::UnexpectedResponseStatusCode(404, Some(_))
        ))
    ));
    let step = scraper.get_channel_info(5, answer(503, "{}"));
    assert!(matches!(
        step.next,
        Resolution::Failed(ScraperError::DiscordApiError(
            DiscordApiError::UnexpectedResponseStatusCode(503, Some(_))
        ))
    ));
    let step = scraper.get_channel_info(5, Err("no route".to_string()));
    assert!(matches!(
        step.next,
        Resolution::Failed(ScraperError::DiscordApiError(DiscordApiError::SendingRequest(_)))
    ));
}

#[test]
fn the_pacing_of_the_metadata_is_kept() {
    let scraper = Scraper::new("t", false);
    let step = scraper.get_channel_info(
        5,
        paced(200, r#"{"name": "general", "last_message_id": "900"}"#, "0", "2"),
    );
    assert_eq!(step.pause, Some(Pause::RateLimit(2000)));
    assert!(matches!(step.next, Resolution::Resolved(_)));
    let step = scraper.get_channel_info(5, paced(200, r#"{"last_message_id": "900"}"#, "0", "2"));
    assert_eq!(step.pause, Some(Pause::RateLimit(2000)));
    assert!(matches!(step.next, Resolution::AskAgain(_)));
    let step = scraper.get_channel_info(5, paced(404, "", "0", "2"));
    assert_eq!(step.pause, None);
}

#[test]
fn only_a_name_that_begins_with_dm_is_made_up() {
    assert!(has_dm_name("dm_1"));
    assert!(has_dm_name("dm_"));
    assert!(has_dm_name("dm_general"));
    assert!(!has_dm_name("dm"));
    assert!(!has_dm_name(""));
    assert!(!has_dm_name("DM_1"));
    assert!(!has_dm_name("adm_1"));
    assert!(!has_dm_name("d m_"));
}

#[test]
fn a_crawl_is_planned_into_the_sink() {
    let scraper = Scraper::new("t", false);
    let files = SaveTarget::select(None);
    let plan = scraper.scrape_channel(&named(5, "general", 900), &files);
    assert_eq!(plan.crawl, Crawl { channel_id: 5, cursor: 900, format_request: true });
    assert_eq!(plan.directory.as_deref(), Some("storage"));
    assert_eq!(plan.output_path.as_deref(), Some("storage/general.jsonl"));
    let plan = scraper.scrape_channel_backup(&named(5, "dm_5", 0), &files);
    assert_eq!(plan.crawl, Crawl { channel_id: 5, cursor: 0, format_request: false });
    assert_eq!(plan.directory.as_deref(), Some("storage/backup/messages"));
    assert_eq!(plan.output_path.as_deref(), Some("storage/backup/messages/dm_5.jsonl"));
    let database = SaveTarget::Sql("mysql://host/db".to_string());
    let plan = scraper.scrape_channel(&named(5, "general", 900), &database);
    assert_eq!(plan.directory, None);
    assert_eq!(plan.output_path, None);
    let plan = scraper.scrape_channel_backup(&named(5, "general", 900), &database);
    assert_eq!(plan.output_path, None);
}

#[test]
fn a_backup_needs_a_personal_account() {
    assert!(Scraper::new("t", true).wants_backup(true));
    assert!(!Scraper::new("t", true).wants_backup(false));
    assert!(!Scraper::new("t", false).wants_backup(true));
    assert!(!Scraper::new("t", false).wants_backup(false));
    assert_eq!(Scraper::new("abc", false).backup_channels_request().authorization, "Bot abc");
}

#[test]
fn a_backup_is_planned_from_the_channels_with_a_recipient() {
    let scraper = Scraper::new("t", true);
    let body = r#"[
            {"id": "100", "recipients": [{"username": "ann", "id": "1"}, {"username": "bob", "id": "2"}]},
            {"id": "200", "recipients": []},
            {"id": "300"},
            {"id": "400", "recipients": "ann"},
            {"id": "x500", "recipients": [{"username": "cy", "id": "3"}]},
            {"recipients": [{"id": "4"}]},
            {"id": "700", "recipients": [{"username": 5, "id": 6}]},
            "no channel"
        ]"#;
    let plan = scraper.backup_channels(answer(200, body), &SaveTarget::select(None)).plan.unwrap();
    let got: Vec<(&str, &str, Option<u64>, Option<&str>)> = plan
        .iter()
        .map(|e| (e.username.as_str(), e.user_id.as_str(), e.channel_id, e.snapshot_path.as_deref()))
        .collect();
    assert_eq!(
        got,
        vec![
            ("ann", "1", Some(100), Some("storage/backup/users/ann-1.json")),
            ("cy", "3", None, Some("storage/backup/users/cy-3.json")),
            ("unknown", "4", None, Some("storage/backup/users/unknown-4.json")),
            ("unknown", "unknown", Some(700), Some("storage/backup/users/unknown-unknown.json")),
        ]
    );
    assert_eq!(
        plan[2].metadata,
        "{\n  \"recipients\": [\n    {\n      \"id\": \"4\"\n    }\n  ]\n}"
    );
    assert_eq!(
        plan[1].metadata,
        "{\n  \"id\": \"x500\",\n  \"recipients\": [\n    {\n      \"id\": \"3\",\n      \"username\": \"cy\"\n    }\n  ]\n}"
    );
}

#[test]
fn a_backup_into_a_database_writes_no_snapshot() {
    let scraper = Scraper::new("t", true);
    let body = r#"[{"id": "100", "recipients": [{"username": "ann", "id": "1"}]}]"#;
    let database = SaveTarget::Sql("mysql://host/db".to_string());
    let plan = scraper.backup_channels(answer(200, body), &database).plan.unwrap();
    assert_eq!(plan.len(), 1);
    assert_eq!(plan[0].username, "ann");
    assert_eq!(plan[0].channel_id, Some(100));
    assert_eq!(plan[0].snapshot_path, None);
}

#[test]
fn an_entry_is_read_from_one_channel() {
    let files = SaveTarget::Jsonl("out".to_string());
    let channel = Json::parse(br#"{"id": "9", "recipients": [{"username": "zed", "id": "26"}]}"#).unwrap();
    let entry = backup_entry(&channel, &files, "{}".to_string()).unwrap();
    assert_eq!(entry.username, "zed");
    assert_eq!(entry.user_id, "26");
    assert_eq!(entry.channel_id, Some(9));
    assert_eq!(entry.metadata, "{}");
    assert_eq!(entry.snapshot_path.as_deref(), Some("out/backup/users/zed-26.json"));
    let lonely = Json::parse(br#"{"id": "9", "recipients": []}"#).unwrap();
    assert!(backup_entry(&lonely, &files, "{}".to_string()).is_none());
    assert!(backup_entry(&Json::Null, &files, "null".to_string()).is_none());
}

#[test]
fn a_list_that_is_no_array_fails_the_backup() {
    let scraper = Scraper::new("t", true);
    let files = SaveTarget::select(None);
    for body in ["{}", "null", "\"x\""] {
        assert!(matches!(
            scraper.backup_channels(answer(200, body), &files).plan,
            Err(ScraperError::DiscordApiError(DiscordApiError::UnexpectedResponseStatusCode(500, None)))
        ));
    }
    assert_eq!(scraper.backup_channels(answer(200, "[]"), &files).plan.unwrap().len(), 0);
}

#[test]
fn a_backup_begins_with_the_list_of_dm_channels() {
    let scraper = Scraper::new("t", true);
    let files = SaveTarget::select(None);
    assert_eq!(scraper.backup_channels_request().url, "https://discord.com/api/v9/users/@me/channels");
    let step = scraper.backup_channels(
        paced(200, r#"[{"id": "100", "recipients": [{"username": "ann", "id": "1"}]}]"#, "0", "0.5"),
        &files,
    );
    assert_eq!(step.pause, Some(Pause::RateLimit(500)));
    let plan = step.plan.unwrap();
    assert_eq!(plan.len(), 1);
    assert_eq!(plan[0].channel_id, Some(100));
    let step = scraper.backup_channels(answer(401, "{}"), &files);
    assert_eq!(step.pause, None);
    assert!(matches!(
        step.plan,
        Err(ScraperError::DiscordApiError(DiscordApiError::UnexpectedResponseStatusCode(401, Some(_))))
    ));
    let step = scraper.backup_channels(answer(200, "["), &files);
    assert!(matches!(
        step.plan,
        Err(ScraperError::DiscordApiError(DiscordApiError::ParseResponse(_)))
    ));
    let step = scraper.backup_channels(Err("offline".to_string()), &files);
    assert!(matches!(
        step.plan,
        Err(ScraperError::DiscordApiError(DiscordApiError::SendingRequest(_)))
    ));
}

#[test]
fn the_time_of_a_crawl_is_given_in_whole_minutes() {
    assert_eq!(elapsed_minutes(0, 0), 0);
    assert_eq!(elapsed_minutes(100, 159), 0);
    assert_eq!(elapsed_minutes(100, 160), 1);
    assert_eq!(elapsed_minutes(1_700_000_000, 1_700_003_600), 60);
    assert_eq!(elapsed_minutes(200, 100), 0);
    assert_eq!(elapsed_minutes(i64::MIN, i64::MAX), u64::MAX / 60);
    assert_eq!(elapsed_minutes(i64::MAX, i64::MIN), 0);
}

#[test]
fn the_converted_file_is_named_after_the_stem() {
    assert_eq!(json_file_name("storage/general.jsonl", Some("general"), true).unwrap(), "general.json");
    assert_eq!(json_file_name("a.b.jsonl", Some("a.b"), true).unwrap(), "a.b.json");
    assert!(matches!(
        json_file_name("..", None, true),
        Err(InvalidPathError::NoFileStem(path)) if path == ".."
    ));
    assert!(matches!(
        json_file_name("", None, false),
        Err(InvalidPathError::NoFileStem(path)) if path.is_empty()
    ));
    assert!(matches!(
        json_file_name("/", Some("x"), false),
        Err(InvalidPathError::NoParentDir(path)) if path == "/"
    ));
}

#[test]
fn the_lines_of_a_file_become_one_array() {
    let lines = vec![
        r#"{"channel_id":1,"author_id":2,"message_id":3,"text":"a","has_media":false}"#.to_string(),
        "garbage".to_string(),
        r#"{"channel_id":1,"author_id":2,"message_id":2,"text":"b","has_media":true}"#.to_string(),
    ];
    let text = convert_jsonl_file_into_json(&lines);
    let expected = "[\n  {\n    \"author_id\": 2,\n    \"channel_id\": 1,\n    \"has_media\": false,\n    \"message_id\": 3,\n    \"text\": \"a\"\n  },\n  {\n    \"author_id\": 2,\n    \"channel_id\": 1,\n    \"has_media\": true,\n    \"message_id\": 2,\n    \"text\": \"b\"\n  }\n]";
    assert_eq!(text, expected);
    let back = Json::parse(text.as_bytes()).unwrap();
    assert_eq!(back.as_array().map(|items| items.len()), Some(2));
}

#[test]
fn a_conversion_error_names_its_cause() {
    let error = FileConversionError::InvalidPath(InvalidPathError::NoFileStem("..".to_string()));
    assert!(matches!(error, FileConversionError::InvalidPath(InvalidPathError::NoFileStem(_))));
    assert_eq!(convert_jsonl_file_into_json(&vec![]), "[]");
}
