use tt_rust::agent::fetch::{
    agent_task, fetch_parts, generate_hash, is_range_header_name, hashed_file_name, job_file_name, space_reply,
    split_lines, status_text, AgentTask, LoadProgress,
};
use tt_rust::agent::fs::{
    dir_listing, get_free_handle, listing_from, read_range, BytesContent, DirEntry, NodeType,
};
use tt_rust::agent::protocol::{choose_space, Action, CoordinatorState, Message};
use tt_rust::input_complete;

const FETCH: &str = "fetch(\"https://www.imis.bfs.de/ogc/opendata/ows\", {\n  \"headers\": {\n    \"accept\": \"*/*\"\n  },\n  \"method\": \"POST\"\n});\n";

#[test]
fn fetch_request_parts() {
    let (url, body) = fetch_parts(FETCH).unwrap();
    assert_eq!(url, "https://www.imis.bfs.de/ogc/opendata/ows");
    assert_eq!(
        body,
        "{  \"headers\": {    \"accept\": \"*/*\"  },  \"method\": \"POST\"}"
    );
}

#[test]
fn fetch_url_runs_to_last_quote_before_a_comma() {
    let (url, body) = fetch_parts("fetch(\"a\", b\" , {\r\nx);\r\n").unwrap();
    assert_eq!(url, "a\", b");
    assert_eq!(body, "{x");
}

#[test]
fn fetch_without_call_is_none() {
    assert!(fetch_parts("").is_none());
    assert!(fetch_parts("get(\"x\", {\n});").is_none());
    assert!(fetch_parts("fetch(\"x\"\n").is_none());
}

#[test]
fn lines_like_str_lines() {
    let text = "foo\r\nbar\n\nbaz\r";
    let got: Vec<String> = split_lines(text).iter().map(|l| l.iter().collect()).collect();
    let want: Vec<String> = text.lines().map(|l| l.to_string()).collect();
    assert_eq!(got, want);
    assert_eq!(split_lines("a\n").len(), 1);
    assert_eq!(split_lines("").len(), 0);
}

#[test]
fn job_hash_is_sha3_hex() {
    assert_eq!(
        generate_hash(&String::new()),
        "a7ffc6f8bf1ed76651c14756a061d662f580ff4de43b49fa82d80a4b80f8434a"
    );
    assert_eq!(
        generate_hash(&"abc".to_string()),
        "3a985da74fe225b2045c172d6bd390bd855f086e3e9d525b46bfe24511431532"
    );
}

#[test]
fn download_names_and_status() {
    assert_eq!(job_file_name("ab12"), "ab12.mp4");
    assert_eq!(hashed_file_name("ff00", "mp4"), "ff00.mp4");
    assert_eq!(status_text("host", "/tmp/x.mp4", 37), "host /tmp/x.mp4 37%");
}

#[test]
fn progress_reports_each_part_once() {
    let mut p = LoadProgress::new(1000);
    assert_eq!(p.part_size, 10);
    assert_eq!(p.on_chunk(&[7u8; 5]), Some(0));
    assert_eq!(p.on_chunk(&[7u8; 3]), None);
    assert_eq!(p.on_chunk(&[7u8; 4]), Some(1));
    assert_eq!(p.on_chunk(&[7u8; 30]), Some(2));
    assert_eq!(p.count, 42);
    assert_eq!(p.next_part, 30);
}

#[test]
fn a_finished_download_is_named_by_the_digest_of_its_bytes() {
    let mut p = LoadProgress::new(100);
    p.on_chunk(b"hello ");
    p.on_chunk(b"world");
    let expected = format!("{}.mp4", generate_hash(&String::from("hello world")));
    assert_eq!(p.finish("mp4"), expected);
}

#[test]
fn tasks_of_messages() {
    assert!(matches!(agent_task(Message::RequireSpace(5)), AgentTask::FindSpace(5)));
    assert!(matches!(agent_task(Message::RequireSpaceHere(6)), AgentTask::CheckSpaceHere(6)));
    assert!(matches!(agent_task(Message::Load("f".into())), AgentTask::Load(f) if f == "f"));
    assert!(
        matches!(agent_task(Message::LoadHere("h".into(), "g".into())), AgentTask::LoadHere(f) if f == "g")
    );
    assert!(matches!(agent_task(Message::ReadStatus), AgentTask::ReadStatus));
    assert!(matches!(agent_task(Message::Empty), AgentTask::Unsupported));
}

#[test]
fn space_here_first_disk_big_enough() {
    match space_reply("me", &vec![10, 500, 900], 100) {
        Message::HasSpace(h, s) => {
            assert_eq!(h, "me");
            assert_eq!(s, 500);
        }
        _ => panic!("no space"),
    }
    assert!(matches!(space_reply("me", &vec![10, 100], 100), Message::Empty));
}

#[test]
fn coordinator_learns_hosts_once() {
    let mut c = CoordinatorState::new("here");
    let a = c.on_message(Message::Hello("a".into()), true);
    assert_eq!(a.len(), 2);
    assert!(matches!(a[0], Action::BroadcastHello));
    assert!(matches!(a[1], Action::ToMonitor(Message::Empty)));
    let a = c.on_message(Message::Hello("a".into()), false);
    assert_eq!(a.len(), 0);
    assert!(c.on_hello("b".into()));
    assert!(!c.on_hello("b".into()));
    let infos = c.get_agent_infos();
    let names: Vec<&str> = infos.iter().map(|i| i.name()).collect();
    assert_eq!(names, vec!["a", "b"]);
    let lines = c.host_lines();
    assert_eq!(lines[0], (1, "Host: here".to_string()));
    assert_eq!(lines[2], (4, "known Host: b".to_string()));
    let s = c.on_message(Message::Status("j".into(), "s".into()), false);
    assert!(matches!(s[0], Action::NoMonitor));
    let s = c.on_message(Message::Status("j".into(), "s".into()), true);
    assert!(matches!(&s[0], Action::ToMonitor(Message::Status(j, st)) if j == "j" && st == "s"));
    assert!(matches!(c.on_message(Message::ReadStatus, true)[0], Action::Ignore));
}

#[test]
fn jobs_listed_by_id_with_last_status() {
    let mut c = CoordinatorState::new("here");
    c.set_job("m".into(), "1%".into());
    c.set_job("b".into(), "5%".into());
    c.set_job("x".into(), "0%".into());
    c.set_job("m".into(), "2%".into());
    let lines = c.job_lines();
    assert_eq!(
        lines,
        vec![
            (10, "b -> 5%".to_string()),
            (11, "m -> 2%".to_string()),
            (12, "x -> 0%".to_string())
        ]
    );
}

#[test]
fn most_space_first_of_ties() {
    let r = choose_space(&vec![("a".to_string(), 5), ("b".to_string(), 9), ("c".to_string(), 9)]);
    assert_eq!(r, (9, "b".to_string()));
}

#[test]
fn directory_listing_from_offset() {
    let d = dir_listing(
        7,
        vec![DirEntry { dir: 7, name: "f".into(), inode: 9 }],
    );
    assert_eq!(d.len(), 3);
    assert_eq!(d[0].name, ".");
    assert_eq!(d[1].name, "..");
    let l = listing_from(&d, 1);
    assert_eq!(l.len(), 2);
    assert_eq!(l[0].name, "..");
    assert_eq!(l[0].next_offset, 2);
    assert_eq!(l[1].inode, 9);
    assert_eq!(l[1].next_offset, 3);
    assert_eq!(listing_from(&d, 3).len(), 0);
    assert_eq!(listing_from(&d, -1).len(), 0);
}

#[test]
fn reading_ranges() {
    let b = vec![1u8, 2, 3, 4, 5];
    assert_eq!(read_range(&b, 1, 2), vec![2, 3]);
    assert_eq!(read_range(&b, 3, 10), vec![4, 5]);
    assert_eq!(read_range(&b, 5, 1), Vec::<u8>::new());
    let c = BytesContent::new_from_str(4, "Das ist ein übler Test.\n");
    let n = c.inode();
    assert_eq!(n.id, 4);
    assert!(n.kind == NodeType::File);
    assert_eq!(n.size, "Das ist ein übler Test.\n".len());
    assert_eq!(c.read(4, 3), b"ist".to_vec());
}

#[test]
fn free_handles() {
    assert_eq!(get_free_handle(&vec![true, false, false]), Some(1));
    assert_eq!(get_free_handle(&vec![true, true]), None);
}

#[test]
fn complete_input_ends_with_full_stop() {
    assert!(input_complete("1 + 2."));
    assert!(!input_complete("1 + 2"));
    assert!(!input_complete(""));
}

#[test]
fn range_headers_are_recognised_in_any_case() {
    assert!(is_range_header_name("range"));
    assert!(is_range_header_name("Range"));
    assert!(!is_range_header_name("ranges"));
    assert!(!is_range_header_name("accept"));
}
