use dirwatch::enumerate::{enumerate_matches, EntryInfo};
use dirwatch::selector::{join, Selector};
use dirwatch::unified::{unified_run, UnifiedSeq};
use dirwatch::watch::{EventKind, RawEvent, WatchInput};

fn bv(s: &str) -> Vec<u8> {
    s.as_bytes().to_vec()
}

fn txt_selector() -> Selector {
    Selector::new(bv("txt")).unwrap()
}

fn entry(name: &str, is_regular: bool) -> EntryInfo {
    EntryInfo { name: bv(name), is_regular }
}

fn create_event(name: &str) -> WatchInput {
    WatchInput::Event(RawEvent { kind: EventKind::Create, name: Some(bv(name)) })
}

#[test]
fn selector_decides_by_extension() {
    let sel = txt_selector();
    assert!(sel.matches(&bv("a.txt")));
    assert!(sel.matches(&bv("archive.tar.txt")));
    assert!(!sel.matches(&bv("b.bin")));
    assert!(!sel.matches(&bv("txt")));
    assert!(!sel.matches(&bv(".txt")));
    assert!(!sel.matches(&bv("x.TXT")));
    assert!(!sel.matches(&bv("a.txtx")));
    assert!(!sel.matches(&bv("")));
}

#[test]
fn selector_rejects_ill_formed_extensions() {
    assert!(Selector::new(bv("")).is_none());
    assert!(Selector::new(bv("t.t")).is_none());
    assert!(Selector::new(bv("t/t")).is_none());
    assert!(Selector::new(bv("log")).is_some());
}

#[test]
fn join_adds_separator_only_when_needed() {
    assert_eq!(join(&bv("/d"), &bv("a.txt")), bv("/d/a.txt"));
    assert_eq!(join(&bv("/d/"), &bv("a.txt")), bv("/d/a.txt"));
    assert_eq!(join(&bv(""), &bv("a.txt")), bv("/a.txt"));
}

#[test]
fn enumerator_yields_each_matching_regular_file() {
    let sel = txt_selector();
    let dir = bv("/d");
    let entries = vec![
        entry("a.txt", true),
        entry("b.bin", true),
        entry("c.txt", false),
        entry("d.txt", true),
        entry("noext", true),
    ];
    let out = enumerate_matches(&sel, &dir, &entries);
    assert_eq!(out, vec![bv("/d/a.txt"), bv("/d/d.txt")]);
}

#[test]
fn enumerator_never_yields_non_regular_entries() {
    let sel = txt_selector();
    let dir = bv("/d");
    let entries = vec![entry("sub.txt", false), entry("dangling.txt", false)];
    let out = enumerate_matches(&sel, &dir, &entries);
    assert!(out.is_empty());
}

#[test]
fn enumerator_is_idempotent_on_an_unchanged_listing() {
    let sel = txt_selector();
    let dir = bv("/d");
    let pass1 = vec![entry("a.txt", true), entry("b.txt", true), entry("c.bin", true)];
    let pass2 = vec![entry("b.txt", true), entry("c.bin", true), entry("a.txt", true)];
    let out1 = enumerate_matches(&sel, &dir, &pass1);
    let out2 = enumerate_matches(&sel, &dir, &pass2);
    assert_eq!(out1.len(), out2.len());
    for p in &out1 {
        assert!(out2.contains(p));
    }
    for p in &out2 {
        assert!(out1.contains(p));
    }
    let out1_again = enumerate_matches(&sel, &dir, &pass1);
    assert_eq!(out1, out1_again);
}

#[test]
fn live_watch_on_empty_directory() {
    let sel = txt_selector();
    let dir = bv("/d");
    let mut stream = UnifiedSeq::new(sel, dir, Vec::new());
    let existing = stream.drain_existing();
    assert!(existing.is_empty());
    assert!(stream.is_drained());

    let got = stream.on_event(&create_event("a.txt"));
    assert_eq!(got, Some(bv("/d/a.txt")));

    let got = stream.on_event(&create_event("b.bin"));
    assert_eq!(got, None);

    // A directory creation reaches the watcher as a non-create kind.
    let subdir = WatchInput::Event(RawEvent { kind: EventKind::Other, name: Some(bv("c.txt")) });
    let got = stream.on_event(&subdir);
    assert_eq!(got, None);

    let nameless = WatchInput::Event(RawEvent { kind: EventKind::Create, name: None });
    let got = stream.on_event(&nameless);
    assert_eq!(got, None);
}

#[test]
fn existing_paths_come_before_watched_paths() {
    let sel = txt_selector();
    let dir = bv("/d");
    let mut stream = UnifiedSeq::new(sel, dir, vec![entry("x.txt", true)]);
    let mut emitted: Vec<Vec<u8>> = Vec::new();
    emitted.extend(stream.drain_existing());
    if let Some(p) = stream.on_event(&create_event("y.txt")) {
        emitted.push(p);
    }
    assert_eq!(emitted, vec![bv("/d/x.txt"), bv("/d/y.txt")]);
}

#[test]
fn next_existing_hands_out_listing_order_then_nothing() {
    let sel = txt_selector();
    let dir = bv("/d");
    let mut stream = UnifiedSeq::new(sel, dir, vec![entry("a.txt", true), entry("b.txt", true)]);
    assert_eq!(stream.next_existing(), Some(bv("/d/a.txt")));
    assert_eq!(stream.next_existing(), Some(bv("/d/b.txt")));
    assert_eq!(stream.next_existing(), None);
    assert_eq!(stream.next_existing(), None);
}

#[test]
fn decode_failure_silently_ends_the_live_half() {
    let sel = txt_selector();
    let dir = bv("/d");
    let mut stream = UnifiedSeq::new(sel, dir, Vec::new());
    let existing = stream.drain_existing();
    assert!(existing.is_empty());
    let pulls = vec![
        create_event("a.txt"),
        WatchInput::DecodeFailure,
        create_event("b.txt"),
    ];
    let out = stream.pump_events(pulls);
    assert_eq!(out, vec![bv("/d/a.txt")]);
    assert!(!stream.live);
    let got = stream.on_event(&create_event("c.txt"));
    assert_eq!(got, None);
    let out = stream.pump_events(vec![create_event("d.txt")]);
    assert!(out.is_empty());
}

#[test]
fn unified_run_concatenates_the_two_halves() {
    let sel = txt_selector();
    let dir = bv("/d");
    let entries = vec![entry("x.txt", true), entry("skip.bin", true)];
    let pulls = vec![
        create_event("y.txt"),
        WatchInput::DecodeFailure,
        create_event("z.txt"),
    ];
    let out = unified_run(sel, dir, entries, pulls);
    assert_eq!(out, vec![bv("/d/x.txt"), bv("/d/y.txt")]);
}

#[test]
fn pump_events_yields_arrival_order() {
    let sel = txt_selector();
    let dir = bv("/d");
    let mut stream = UnifiedSeq::new(sel, dir, Vec::new());
    stream.drain_existing();
    let pulls = vec![
        create_event("one.txt"),
        create_event("skip.bin"),
        create_event("two.txt"),
    ];
    let out = stream.pump_events(pulls);
    assert_eq!(out, vec![bv("/d/one.txt"), bv("/d/two.txt")]);
    assert!(stream.live);
}
