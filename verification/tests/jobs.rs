use texlab::config::{ClientFlags, Options};
use texlab::debouncer::Debouncer;
use texlab::jobs::{
    pdf_path, substitute, to_decimal, BuildQueue, BuildStatus, ForwardSearchStatus, WorkspaceCommand,
};
use texlab::server::Server;
use texlab::text::Position;

fn server() -> Server {
    Server::new(ClientFlags { pull_configuration: false, push_configuration: false })
}

fn args(list: &[&str]) -> Vec<Vec<u8>> {
    list.iter().map(|a| a.as_bytes().to_vec()).collect()
}

fn project() -> Server {
    let mut s = server();
    s.did_open(b"/w/main.tex", "latex", b"\\documentclass{article}\\input{chap/one}".to_vec());
    s.did_open(b"/w/chap/one.tex", "latex", b"first\nsecond\nthird".to_vec());
    s
}

#[test]
fn status_codes() {
    assert_eq!(BuildStatus::Success.code(), 0);
    assert_eq!(BuildStatus::Error.code(), 1);
    assert_eq!(BuildStatus::Failure.code(), 2);
    assert_eq!(BuildStatus::Cancelled.code(), 3);
    assert_eq!(ForwardSearchStatus::Success.code(), 0);
    assert_eq!(ForwardSearchStatus::Error.code(), 1);
    assert_eq!(ForwardSearchStatus::Failure.code(), 2);
    assert_eq!(ForwardSearchStatus::Unconfigured.code(), 3);
}

#[test]
fn decimal_digits() {
    assert_eq!(to_decimal(0), b"0");
    assert_eq!(to_decimal(7), b"7");
    assert_eq!(to_decimal(10), b"10");
    assert_eq!(to_decimal(1984), b"1984");
    assert_eq!(to_decimal(u64::MAX), b"18446744073709551615");
}

#[test]
fn placeholders_are_filled_in() {
    let line = Some(b"12".to_vec());
    assert_eq!(substitute(b"%f", b"a.tex", b"a.pdf", &line), b"a.tex");
    assert_eq!(substitute(b"--pdf=%p", b"a.tex", b"a.pdf", &line), b"--pdf=a.pdf");
    assert_eq!(substitute(b"%l:1:%f", b"a.tex", b"a.pdf", &line), b"12:1:a.tex");
    assert_eq!(substitute(b"%f%f%", b"a", b"b", &line), b"aa%");
    assert_eq!(substitute(b"100%% %x %", b"a", b"b", &line), b"100%% %x %");
    assert_eq!(substitute(b"", b"a", b"b", &line), b"");
    assert_eq!(substitute(b"%l %f", b"a", b"b", &None), b"%l a");
    assert_eq!(substitute(b"%%f", b"a", b"b", &None), b"%a");
}

#[test]
fn pdf_beside_the_tex_file() {
    assert_eq!(pdf_path(b"/w/main.tex"), b"/w/main.pdf");
    assert_eq!(pdf_path(b"/w/main"), b"/w/main.pdf");
    assert_eq!(pdf_path(b"/w.d/main"), b"/w.d/main.pdf");
    assert_eq!(pdf_path(b"a.b.tex"), b"a.b.pdf");
}

#[test]
fn build_fails_without_document_or_compiler() {
    let mut s = project();
    assert_eq!(s.build_internal(b"/w/main.tex").err(), Some(BuildStatus::Failure));
    s.options.build.executable = Some(b"latexmk".to_vec());
    assert_eq!(s.build_internal(b"/w/other.tex").err(), Some(BuildStatus::Failure));
    assert!(s.build_internal(b"/w/main.tex").is_ok());
}

#[test]
fn build_compiles_the_root_of_the_project() {
    let mut s = project();
    s.options.build.executable = Some(b"latexmk".to_vec());
    s.options.build.args = args(&["-pdf", "-synctex=1", "%f", "-o", "%p", "%l"]);
    let run = s.build_internal(b"/w/chap/one.tex").ok().unwrap();
    assert_eq!(run.executable, b"latexmk");
    assert_eq!(run.args, args(&["-pdf", "-synctex=1", "/w/main.tex", "-o", "/w/main.pdf", "%l"]));
}

#[test]
fn forward_search_follows_only_a_successful_build() {
    let mut s = server();
    for status in [BuildStatus::Success, BuildStatus::Error, BuildStatus::Failure, BuildStatus::Cancelled] {
        assert!(!s.forward_search_follows(status));
    }
    s.options.build.forward_search_after = true;
    assert!(s.forward_search_follows(BuildStatus::Success));
    assert!(!s.forward_search_follows(BuildStatus::Error));
    assert!(!s.forward_search_follows(BuildStatus::Failure));
    assert!(!s.forward_search_follows(BuildStatus::Cancelled));
}

#[test]
fn forward_search_status_without_document_or_viewer() {
    let mut s = project();
    assert_eq!(
        s.forward_search_internal(b"/w/none.tex", None).err(),
        Some(ForwardSearchStatus::Unconfigured)
    );
    assert_eq!(
        s.forward_search_internal(b"/w/main.tex", None).err(),
        Some(ForwardSearchStatus::Unconfigured)
    );
    s.options.forward_search.executable = Some(b"viewer".to_vec());
    assert_eq!(
        s.forward_search_internal(b"/w/main.tex", None).err(),
        Some(ForwardSearchStatus::Unconfigured)
    );
    s.options.forward_search.executable = None;
    s.options.forward_search.args = Some(args(&["%f"]));
    assert_eq!(
        s.forward_search_internal(b"/w/main.tex", None).err(),
        Some(ForwardSearchStatus::Unconfigured)
    );
    assert_eq!(
        s.forward_search_internal(b"/w/none.tex", None).err(),
        Some(ForwardSearchStatus::Unconfigured)
    );
    s.options.forward_search.executable = Some(b"viewer".to_vec());
    assert_eq!(
        s.forward_search_internal(b"/w/none.tex", None).err(),
        Some(ForwardSearchStatus::Failure)
    );
    assert!(s.forward_search_internal(b"/w/main.tex", None).is_ok());
}

#[test]
fn forward_search_uses_the_position_or_the_cursor() {
    let mut s = project();
    s.options.forward_search.executable = Some(b"viewer".to_vec());
    s.options.forward_search.args = Some(args(&["--synctex-forward", "%l:1:%f", "%p"]));
    let run = s
        .forward_search_internal(b"/w/chap/one.tex", Some(Position { line: 41, character: 3 }))
        .ok()
        .unwrap();
    assert_eq!(run.executable, b"viewer");
    assert_eq!(run.args, args(&["--synctex-forward", "42:1:/w/chap/one.tex", "/w/main.pdf"]));
    s.hover(b"/w/chap/one.tex", Position { line: 1, character: 2 });
    let run = s.forward_search_internal(b"/w/chap/one.tex", None).ok().unwrap();
    assert_eq!(run.args, args(&["--synctex-forward", "2:1:/w/chap/one.tex", "/w/main.pdf"]));
    let run = s.forward_search_internal(b"/w/main.tex", None).ok().unwrap();
    assert_eq!(run.args, args(&["--synctex-forward", "1:1:/w/main.tex", "/w/main.pdf"]));
}

#[test]
fn commands_by_name() {
    assert_eq!(Server::execute_command("texlab.cleanAuxiliary").ok(), Some(WorkspaceCommand::CleanAuxiliary));
    assert_eq!(Server::execute_command("texlab.cleanArtifacts").ok(), Some(WorkspaceCommand::CleanArtifacts));
    let failure = Server::execute_command("texlab.other").err().unwrap();
    assert_eq!(failure.code, -32603);
    assert_eq!(failure.message, "unknown command");
}

#[test]
fn second_build_waits_for_the_first() {
    let mut queue = BuildQueue::new();
    assert!(queue.request(1));
    assert!(!queue.request(2));
    assert!(!queue.request(3));
    assert_eq!(queue.finish(), Some(2));
    assert!(!queue.request(4));
    assert_eq!(queue.finish(), Some(3));
    assert_eq!(queue.finish(), Some(4));
    assert_eq!(queue.finish(), None);
    assert!(queue.request(5));
    assert_eq!(queue.finish(), None);
    assert!(queue.request(6));
}

#[test]
fn burst_of_changes_gives_one_publication() {
    let mut debouncer: Debouncer<u32> = Debouncer::new();
    let mut emitted = Vec::new();
    let mut last = 0;
    for i in 0..10u64 {
        let now = 1000 + 50 * i;
        debouncer.send(i as u32, now, 200);
        last = now;
        for tick in now..now + 50 {
            if let Some(item) = debouncer.poll(tick) {
                emitted.push((tick, item));
            }
        }
    }
    assert_eq!(last, 1450);
    assert_eq!(debouncer.deadline(), Some(1650));
    for tick in last + 50..last + 1000 {
        if let Some(item) = debouncer.poll(tick) {
            emitted.push((tick, item));
        }
    }
    assert_eq!(emitted, vec![(1650, 9)]);
    assert_eq!(debouncer.deadline(), None);
}

#[test]
fn debouncer_emits_each_quiet_period_once() {
    let mut debouncer: Debouncer<&str> = Debouncer::new();
    assert_eq!(debouncer.poll(0), None);
    debouncer.send("a", 10, 300);
    assert_eq!(debouncer.poll(309), None);
    assert_eq!(debouncer.poll(310), Some("a"));
    assert_eq!(debouncer.poll(311), None);
    debouncer.send("b", 400, 300);
    debouncer.send("c", 500, 0);
    assert_eq!(debouncer.poll(500), Some("c"));
    assert_eq!(debouncer.poll(10_000), None);
    debouncer.send("d", u64::MAX - 1, 300);
    assert_eq!(debouncer.deadline(), Some(u64::MAX));
    assert_eq!(debouncer.poll(u64::MAX - 1), None);
    assert_eq!(debouncer.poll(u64::MAX), Some("d"));
}

#[test]
fn default_delay_applies_to_the_debouncer() {
    let options = Options::new();
    let mut debouncer: Debouncer<u8> = Debouncer::new();
    debouncer.send(1, 0, options.diagnostics_delay);
    assert_eq!(debouncer.deadline(), Some(300));
}
