use spldcrdchlscrp::discord_api::Message;
use spldcrdchlscrp::json::Json;
use spldcrdchlscrp::utils::message_reader::read_jsonl;
use spldcrdchlscrp::utils::message_saver::{jsonl_lines, SaveTarget, INSERT_MESSAGE_SQL, STORAGE_DIR};

fn message(message_id: u64, text: &str, has_media: bool) -> Message {
    Message { channel_id: 11, author_id: 22, message_id, text: text.to_string(), has_media }
}

#[test]
fn a_run_without_a_database_writes_files_under_storage() {
    assert!(matches!(SaveTarget::select(None), SaveTarget::Jsonl(dir) if dir == "storage"));
    assert_eq!(STORAGE_DIR, "storage");
    assert!(matches!(
        SaveTarget::select(Some("mysql://u:p@host/db".to_string())),
        SaveTarget::Sql(url) if url == "mysql://u:p@host/db"
    ));
}

#[test]
fn the_files_of_a_crawl_lie_under_the_directory() {
    let target = SaveTarget::select(None);
    assert_eq!(target.messages_dir(false).unwrap(), "storage");
    assert_eq!(target.output_path("general", false).unwrap(), "storage/general.jsonl");
    assert_eq!(target.output_path("dm_42", false).unwrap(), "storage/dm_42.jsonl");
}

#[test]
fn the_files_of_a_backup_lie_apart() {
    let target = SaveTarget::Jsonl("storage".to_string());
    assert_eq!(target.messages_dir(true).unwrap(), "storage/backup/messages");
    assert_eq!(target.output_path("dm_42", true).unwrap(), "storage/backup/messages/dm_42.jsonl");
    assert_eq!(target.users_dir().unwrap(), "storage/backup/users");
    assert_eq!(target.user_path("alice", "42").unwrap(), "storage/backup/users/alice-42.json");
    assert_eq!(target.user_path("unknown", "unknown").unwrap(), "storage/backup/users/unknown-unknown.json");
}

#[test]
fn a_database_has_no_files() {
    let target = SaveTarget::Sql("mysql://host/db".to_string());
    assert_eq!(target.messages_dir(false), None);
    assert_eq!(target.messages_dir(true), None);
    assert_eq!(target.output_path("general", false), None);
    assert_eq!(target.users_dir(), None);
    assert_eq!(target.user_path("alice", "42"), None);
}

#[test]
fn the_insert_names_the_five_columns() {
    assert_eq!(
        INSERT_MESSAGE_SQL,
        "INSERT INTO messages (channel_id, author_id, message_id, text, has_media) VALUES (?, ?, ?, ?, ?)"
    );
}

#[test]
fn a_message_is_written_as_one_line() {
    assert_eq!(
        message(33, "hello", false).to_jsonl_line(),
        "{\"channel_id\":11,\"author_id\":22,\"message_id\":33,\"text\":\"hello\",\"has_media\":false}\n"
    );
    assert_eq!(
        message(u64::MAX, "say \"hi\"\nnow", true).to_jsonl_line(),
        "{\"channel_id\":11,\"author_id\":22,\"message_id\":18446744073709551615,\"text\":\"say \\\"hi\\\"\\nnow\",\"has_media\":true}\n"
    );
}

#[test]
fn a_line_holds_no_line_feed_but_its_last() {
    let line = message(1, "a\nb\r\nc", false).to_jsonl_line();
    assert_eq!(line.matches('\n').count(), 1);
    assert!(line.ends_with('\n'));
}

#[test]
fn a_page_of_n_messages_is_written_as_n_lines() {
    for n in 0..5u64 {
        let page: Vec<Message> = (0..n).map(|k| message(k, "a\nb\n\nc\r\n", k % 2 == 0)).collect();
        let lines = jsonl_lines(&page);
        assert_eq!(lines.matches('\n').count() as u64, n);
        assert_eq!(lines.lines().count() as u64, n);
    }
}

#[test]
fn a_page_is_written_line_after_line() {
    let page = vec![message(2, "b", true), message(1, "a", false)];
    assert_eq!(
        jsonl_lines(&page),
        "{\"channel_id\":11,\"author_id\":22,\"message_id\":2,\"text\":\"b\",\"has_media\":true}\n\
         {\"channel_id\":11,\"author_id\":22,\"message_id\":1,\"text\":\"a\",\"has_media\":false}\n"
    );
    assert_eq!(jsonl_lines(&Vec::new()), "");
}

#[test]
fn appended_messages_are_read_back_in_their_order() {
    let first = vec![
        Message { channel_id: 5, author_id: 6, message_id: 1, text: "one".to_string(), has_media: false },
        Message { channel_id: 5, author_id: 7, message_id: 2, text: "two \u{1F600} \"quoted\" \\ \t\nlines".to_string(), has_media: true },
    ];
    let mut file = String::new();
    file.push_str(&jsonl_lines(&first));
    let read = read_jsonl(&file).unwrap();
    assert_eq!(read, first);
    assert_eq!(read[0].message_id, 1);
    assert_eq!(read[1].message_id, 2);
    assert_eq!(read[1].channel_id, 5);
    assert_eq!(read[1].author_id, 7);
    assert_eq!(read[1].text, "two \u{1F600} \"quoted\" \\ \t\nlines");
    assert!(read[1].has_media);
    let by_line: Vec<Message> = file.lines().map(|line| Message::from_jsonl_line(line).unwrap()).collect();
    assert_eq!(by_line, first);
}

#[test]
fn a_second_batch_is_appended_after_the_first() {
    let mut file = String::new();
    file.push_str(&jsonl_lines(&vec![message(9, "new", false), message(8, "old", false)]));
    file.push_str(&jsonl_lines(&vec![message(7, "older", true)]));
    let ids: Vec<u64> = read_jsonl(&file).unwrap().iter().map(|m| m.message_id).collect();
    assert_eq!(ids, vec![9, 8, 7]);
}

#[test]
fn a_text_that_no_page_is_written_as_is_not_read() {
    assert_eq!(read_jsonl(""), Some(vec![]));
    let line = message(1, "a", false).to_jsonl_line();
    assert_eq!(read_jsonl(&line), Some(vec![message(1, "a", false)]));
    assert_eq!(read_jsonl(line.trim_end_matches('\n')), None);
    assert_eq!(read_jsonl("\n"), None);
    assert_eq!(read_jsonl(&format!("{}\n", line)), None);
    assert_eq!(read_jsonl(&format!("{}garbage\n", line)), None);
    assert_eq!(read_jsonl(&format!("{}{}", line, line)), Some(vec![message(1, "a", false), message(1, "a", false)]));
    assert_eq!(read_jsonl(&format!(" {}", line)), None);
}

#[test]
fn a_line_that_holds_no_message_is_not_read() {
    for line in [
        "",
        "not json",
        "[]",
        "{}",
        r#"{"channel_id":1,"author_id":2,"message_id":3,"text":"t"}"#,
        r#"{"channel_id":1,"author_id":2,"message_id":3,"has_media":true}"#,
        r#"{"channel_id":"1","author_id":2,"message_id":3,"text":"t","has_media":true}"#,
        r#"{"channel_id":-1,"author_id":2,"message_id":3,"text":"t","has_media":true}"#,
        r#"{"channel_id":1.5,"author_id":2,"message_id":3,"text":"t","has_media":true}"#,
        r#"{"channel_id":1,"author_id":2,"message_id":3,"text":"t","has_media":"yes"}"#,
    ] {
        assert_eq!(Message::from_jsonl_line(line), None, "on {:?}", line);
    }
}

#[test]
fn only_a_line_as_it_is_written_is_read() {
    let written = r#"{"channel_id":1,"author_id":2,"message_id":3,"text":"t","has_media":true}"#;
    assert_eq!(
        Message::from_jsonl_line(written),
        Some(Message { channel_id: 1, author_id: 2, message_id: 3, text: "t".to_string(), has_media: true })
    );
    for line in [
        r#"{"has_media":true,"text":"t","message_id":3,"author_id":2,"channel_id":1}"#,
        r#"{"channel_id": 1,"author_id":2,"message_id":3,"text":"t","has_media":true}"#,
        r#"{"channel_id":01,"author_id":2,"message_id":3,"text":"t","has_media":true}"#,
        r#"{"channel_id":+1,"author_id":2,"message_id":3,"text":"t","has_media":true}"#,
        r#"{"channel_id":1,"author_id":2,"message_id":3,"text":"\/","has_media":true}"#,
        r#"{"channel_id":1,"author_id":2,"message_id":3,"text":"t","has_media":true} "#,
        "{\"channel_id\":1,\"author_id\":2,\"message_id\":3,\"text\":\"t\",\"has_media\":true}\n",
        r#"{"channel_id":1,"author_id":2,"message_id":3,"text":"t","has_media":true,"more":null}"#,
        r#"{"channel_id":18446744073709551616,"author_id":2,"message_id":3,"text":"t","has_media":true}"#,
        r#"{"channel_id":1,"author_id":2,"message_id":3,"text":"t,"has_media":true}"#,
        r#"{"channel_id":1,"author_id":2,"message_id":3,"text":"t\","has_media":true}"#,
        r#"{"channel_id":1,"author_id":2,"message_id":3,"text":"\u00","has_media":true}"#,
        r#"{"channel_id":1,"author_id":2,"message_id":3,"text":"t","has_media":True}"#,
    ] {
        assert_eq!(Message::from_jsonl_line(line), None, "on {:?}", line);
    }
}

#[test]
fn every_kind_of_character_reads_back() {
    let mut text = String::new();
    for code in 0u32..0x250 {
        text.push(char::from_u32(code).unwrap());
    }
    text.push_str("\u{2028}\u{fffd}\u{1F600}\\u0041\\\\\"\"");
    for has_media in [false, true] {
        for id in [0u64, 7, 10, u64::MAX] {
            let message = Message { channel_id: id, author_id: u64::MAX - id, message_id: id / 2, text: text.clone(), has_media };
            let line = message.to_jsonl_line();
            assert_eq!(line.matches('\n').count(), 1);
            assert_eq!(Message::from_jsonl_line(line.trim_end_matches('\n')), Some(message.clone()));
            assert_eq!(Message::from_jsonl_line(&message.to_json_object()), Some(message));
        }
    }
}

#[test]
fn a_written_object_is_what_the_outside_parser_reads_too() {
    let message = message(44, "a \"b\" \\ \n\t \u{1} \u{e9}", true);
    let object = message.to_json_object();
    let json = Json::parse(object.as_bytes()).unwrap();
    assert_eq!(json.get_str("text"), Some("a \"b\" \\ \n\t \u{1} \u{e9}"));
    assert!(matches!(json.get("message_id"), Some(Json::Number(n)) if n == "44"));
    assert!(matches!(json.get("has_media"), Some(Json::Bool(true))));
    assert_eq!(format!("{}\n", object), message.to_jsonl_line());
}
