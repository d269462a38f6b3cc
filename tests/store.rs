use ham_core::docs::{decode_file_text, DocChange, Docs, NO_VERSION};
use ham_core::source::DocId;
use ham_core::watch::{file_ext_is_watched, plan_watch_events, WatchEvent};

fn s(x: &str) -> String {
    x.to_string()
}

#[test]
fn resolve_is_idempotent_and_ids_increase() {
    let mut docs = Docs::new(s("/opt/hsp"));
    let a = docs.resolve_uri(s("file:///p/a.hsp"));
    let b = docs.resolve_uri(s("file:///p/b.hsp"));
    assert_eq!(docs.resolve_uri(s("file:///p/a.hsp")), a);
    assert_eq!(a, DocId { id: 0 });
    assert_eq!(b, DocId { id: 1 });
    assert_eq!(docs.find_by_uri(&s("file:///p/b.hsp")), Some(b));
    assert_eq!(docs.get_uri(a), Some(s("file:///p/a.hsp")));
    assert_eq!(docs.fresh_doc(), DocId { id: 2 });
}

#[test]
fn editor_events_queue_changes() {
    let mut docs = Docs::new(s("/opt/hsp"));
    let uri = s("file:///p/main.hsp");
    docs.open_doc(uri.clone(), 3, s("mes 1"));
    docs.change_doc(uri.clone(), 4, s("mes 2"));
    let doc = docs.find_by_uri(&uri).unwrap();
    assert_eq!(docs.get_version(doc), Some(4));
    docs.close_doc(&uri);
    assert_eq!(docs.find_by_uri(&uri), None);
    assert_eq!(docs.get_uri(doc), None);
    let mut changes = vec![];
    docs.drain_doc_changes(&mut changes);
    assert_eq!(changes.len(), 3);
    assert!(matches!(&changes[0], DocChange::Opened { doc: d, text } if *d == doc && text == "mes 1"));
    assert!(matches!(&changes[1], DocChange::Changed { doc: d, text } if *d == doc && text == "mes 2"));
    assert!(matches!(&changes[2], DocChange::Closed { doc: d } if *d == doc));
    let mut again = vec![];
    docs.drain_doc_changes(&mut again);
    assert!(again.is_empty());
    let reopened = docs.resolve_uri(uri);
    assert_ne!(reopened, doc);
}

#[test]
fn disk_changes_do_not_touch_open_documents() {
    let mut docs = Docs::new(s("/opt/hsp"));
    let uri = s("file:///p/open.hsp");
    docs.open_doc(uri.clone(), 7, s("buffer"));
    assert!(!docs.change_file(uri.clone(), Some(s("disk"))));
    let other = s("file:///p/closed.hsp");
    assert!(docs.change_file(other.clone(), Some(s("disk"))));
    assert!(!docs.change_file(s("file:///p/bad.hsp"), None));
    let doc = docs.find_by_uri(&other).unwrap();
    assert_eq!(docs.get_version(doc), Some(NO_VERSION));
    assert_eq!(docs.find_by_uri(&s("file:///p/bad.hsp")), None);
    docs.close_file(&other);
    let mut changes = vec![];
    docs.drain_doc_changes(&mut changes);
    assert_eq!(changes.len(), 3);
    assert!(matches!(&changes[1], DocChange::Changed { text, .. } if text == "disk"));
    assert!(matches!(&changes[2], DocChange::Closed { doc: d } if *d == doc));
}

#[test]
fn watched_extensions() {
    assert!(file_ext_is_watched("/p/a.hsp"));
    assert!(file_ext_is_watched("/p/lib/b.as"));
    assert!(!file_ext_is_watched("/p/a.txt"));
    assert!(!file_ext_is_watched("/p/.hsp"));
    assert!(!file_ext_is_watched("/p.hsp/readme"));
    assert!(!file_ext_is_watched("/p/a.hspx"));
}

#[test]
fn three_writes_make_one_update() {
    let ev = vec![WatchEvent::Write(s("/p/a.hsp")), WatchEvent::Write(s("/p/a.hsp")), WatchEvent::Write(s("/p/a.hsp"))];
    let plan = plan_watch_events(&ev);
    assert!(!plan.rescan);
    assert_eq!(plan.updated, vec![s("/p/a.hsp")]);
    assert!(plan.removed.is_empty());
}

#[test]
fn remove_then_create_is_an_update() {
    let ev = vec![WatchEvent::Remove(s("/p/a.hsp")), WatchEvent::Create(s("/p/a.hsp"))];
    let plan = plan_watch_events(&ev);
    assert_eq!(plan.updated, vec![s("/p/a.hsp")]);
    assert!(plan.removed.is_empty());
}

#[test]
fn rename_and_filters() {
    let ev = vec![
        WatchEvent::Rename(s("/p/old.hsp"), s("/p/new.as")),
        WatchEvent::Write(s("/p/notes.txt")),
        WatchEvent::Create(s("/p/c.hsp")),
        WatchEvent::Remove(s("/p/c.hsp")),
        WatchEvent::Other,
    ];
    let plan = plan_watch_events(&ev);
    assert!(!plan.rescan);
    assert_eq!(plan.updated, vec![s("/p/new.as")]);
    let mut removed = plan.removed.clone();
    removed.sort();
    assert_eq!(removed, vec![s("/p/c.hsp"), s("/p/old.hsp")]);
    assert!(plan_watch_events(&vec![WatchEvent::Rescan]).rescan);
}

#[test]
fn decoding_prefers_the_legacy_code_page() {
    assert_eq!(decode_file_text(&vec![0x82, 0xA0]), Some(s("あ")));
    assert_eq!(decode_file_text(&b"mes \"hi\"".to_vec()), Some(s("mes \"hi\"")));
    assert_eq!(decode_file_text(&vec![0xE3, 0x81, 0x82]), Some(s("あ")));
    assert_eq!(decode_file_text(&vec![0x82]), None);
}
