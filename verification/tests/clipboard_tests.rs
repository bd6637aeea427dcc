use mwin::clipboard::{
    conversion_targets, process_selection_request, ClipboardOwner, LoadMachine, LoadStep,
    PropPayload, XA_ATOM,
};
use mwin::connection::Connection;
use mwin::media::MediaType;
use mwin::native::{AtomCollection, SelectionRequest, ATOM_NONE};
use mwin::registry::AtomRegistry;

fn atoms() -> AtomCollection {
    AtomCollection {
        wm_protocols: 10,
        wm_delete_window: 11,
        clipboard: 12,
        targets: 13,
        multiple: 14,
        timestamp: 15,
        utf8_string: 16,
        text: 17,
        string: 18,
        mime_text_plain_utf8: 19,
        incr: 20,
        clipboard_receiver: 21,
        null: 22,
    }
}

fn text_plain() -> MediaType {
    MediaType::new(b"text/plain".to_vec(), true)
}

fn image_png() -> MediaType {
    MediaType::new(b"image/png".to_vec(), false)
}

fn request(target: u32) -> SelectionRequest {
    SelectionRequest { requestor: 99, selection: 12, target, property: 50, time: 1234 }
}

fn loaded_table() -> (ClipboardOwner, AtomRegistry) {
    let mut owner = ClipboardOwner::new();
    let mut registry = AtomRegistry::new();
    registry.resolve(b"text/plain", 100);
    registry.resolve(b"image/png", 101);
    owner.store(&text_plain(), b"hello");
    owner.store(&image_png(), b"PNG");
    (owner, registry)
}

#[test]
fn direct_lookup_serves_the_stored_bytes() {
    let (owner, registry) = loaded_table();
    let reply = process_selection_request(&owner, &registry, &atoms(), &request(100), &Vec::new());
    assert_eq!(reply.writes.len(), 1);
    let w = &reply.writes[0];
    assert_eq!(w.window, 99);
    assert_eq!(w.property, 50);
    assert_eq!(w.type_atom, 100);
    assert_eq!(w.payload, PropPayload::Bytes(b"hello".to_vec()));
    assert_eq!(reply.notify.target, 100);
    assert_eq!(reply.notify.property, 50);
}

#[test]
fn utf8_text_answers_the_legacy_aliases() {
    let (owner, registry) = loaded_table();
    let a = atoms();
    // UTF8_STRING is served from the text entry, target echoed.
    let reply = process_selection_request(&owner, &registry, &a, &request(a.utf8_string), &Vec::new());
    assert_eq!(reply.writes[0].payload, PropPayload::Bytes(b"hello".to_vec()));
    assert_eq!(reply.notify.target, a.utf8_string);
    // The bare TEXT alias is answered as UTF8_STRING.
    let reply = process_selection_request(&owner, &registry, &a, &request(a.text), &Vec::new());
    assert_eq!(reply.writes[0].payload, PropPayload::Bytes(b"hello".to_vec()));
    assert_eq!(reply.notify.target, a.utf8_string);
}

#[test]
fn unmatched_request_answers_no_data_not_silence() {
    let (owner, registry) = loaded_table();
    let reply = process_selection_request(&owner, &registry, &atoms(), &request(777), &Vec::new());
    assert!(reply.writes.is_empty());
    assert_eq!(reply.notify.property, ATOM_NONE);
    assert_eq!(reply.notify.target, 777);
}

#[test]
fn targets_query_lists_specials_formats_and_aliases() {
    let (owner, registry) = loaded_table();
    let a = atoms();
    let reply = process_selection_request(&owner, &registry, &a, &request(a.targets), &Vec::new());
    assert_eq!(reply.writes.len(), 1);
    assert_eq!(reply.writes[0].type_atom, XA_ATOM);
    let expected = vec![
        a.timestamp,
        a.targets,
        a.multiple,
        100,
        a.utf8_string,
        a.mime_text_plain_utf8,
        a.string,
        a.text,
        101,
    ];
    assert_eq!(reply.writes[0].payload, PropPayload::Words(expected));
}

#[test]
fn timestamp_query_is_answered() {
    let (owner, registry) = loaded_table();
    let a = atoms();
    let reply = process_selection_request(&owner, &registry, &a, &request(a.timestamp), &Vec::new());
    assert_eq!(reply.writes.len(), 1);
    assert_eq!(reply.writes[0].payload, PropPayload::Words(vec![0]));
    assert_eq!(reply.notify.property, 50);
}

#[test]
fn multiple_query_recurses_per_pair_and_marks_misses() {
    let (owner, registry) = loaded_table();
    let a = atoms();
    let pairs = vec![(100u32, 60u32), (777u32, 61u32), (101u32, ATOM_NONE)];
    let reply = process_selection_request(&owner, &registry, &a, &request(a.multiple), &pairs);
    // Pair one matched, pair two answered "no data", pair three skipped,
    // then the terminating write to the request's own property.
    assert_eq!(reply.writes.len(), 3);
    assert_eq!(reply.writes[0].property, 60);
    assert_eq!(reply.writes[0].payload, PropPayload::Bytes(b"hello".to_vec()));
    assert_eq!(reply.writes[1].property, 61);
    assert_eq!(reply.writes[1].payload, PropPayload::Words(vec![ATOM_NONE]));
    assert_eq!(reply.writes[2].property, 50);
    assert_eq!(reply.writes[2].payload, PropPayload::Words(vec![a.null]));
}

#[test]
fn multiple_query_answers_special_targets_per_pair() {
    // The batched query goes through the same handling per sub-pair: a
    // timestamp sub-pair gets a timestamp reply and a capability sub-pair
    // gets the full list, not the no-data marker.
    let (owner, registry) = loaded_table();
    let a = atoms();
    let pairs = vec![(a.timestamp, 60u32), (a.targets, 61u32), (a.multiple, 62u32)];
    let reply = process_selection_request(&owner, &registry, &a, &request(a.multiple), &pairs);
    assert_eq!(reply.writes.len(), 3);
    assert_eq!(reply.writes[0].property, 60);
    assert_eq!(reply.writes[0].type_atom, a.timestamp);
    assert_eq!(reply.writes[0].payload, PropPayload::Words(vec![0]));
    assert_eq!(reply.writes[1].property, 61);
    assert_eq!(reply.writes[1].type_atom, XA_ATOM);
    match &reply.writes[1].payload {
        PropPayload::Words(words) => {
            assert_eq!(&words[..3], &[a.timestamp, a.targets, a.multiple]);
            assert!(words.contains(&100));
        },
        other => panic!("unexpected payload {other:?}"),
    }
    // The nested MULTIPLE pair is skipped; the terminator follows.
    assert_eq!(reply.writes[2].property, 50);
    assert_eq!(reply.writes[2].payload, PropPayload::Words(vec![a.null]));
}

#[test]
fn store_replaces_data_under_the_same_format() {
    let mut owner = ClipboardOwner::new();
    let registry = {
        let mut r = AtomRegistry::new();
        r.resolve(b"text/plain", 100);
        r
    };
    owner.store(&text_plain(), b"first");
    owner.store(&text_plain(), b"second");
    assert_eq!(owner.len(), 1);
    let reply = process_selection_request(&owner, &registry, &atoms(), &request(100), &Vec::new());
    assert_eq!(reply.writes[0].payload, PropPayload::Bytes(b"second".to_vec()));
}

#[test]
fn conversion_targets_fall_back_for_utf8_text_only() {
    let a = atoms();
    assert_eq!(
        conversion_targets(&text_plain(), 100, &a),
        vec![100, a.utf8_string, a.string, a.text]
    );
    assert_eq!(conversion_targets(&image_png(), 101, &a), vec![101]);
}

#[test]
fn clipboard_round_trip_returns_the_stored_bytes() {
    // store(format, bytes) then a same-process load(format).
    let (owner, registry) = loaded_table();
    let reply = process_selection_request(&owner, &registry, &atoms(), &request(100), &Vec::new());
    let served = match &reply.writes[0].payload {
        PropPayload::Bytes(b) => b.clone(),
        PropPayload::Words(_) => panic!("expected bytes"),
    };
    let mut machine = LoadMachine::begin(true, 10).unwrap();
    assert!(matches!(machine.on_selection_notify(true), LoadStep::FetchHeader));
    let is_incr = reply.writes[0].type_atom == atoms().incr;
    assert!(!is_incr);
    match machine.on_header(is_incr, served) {
        LoadStep::Finish(Some(bytes)) => assert_eq!(bytes, b"hello".to_vec()),
        other => panic!("unexpected step {other:?}"),
    }
}

#[test]
fn load_on_empty_clipboard_is_none_immediately() {
    // No owner: no machine is even started, nothing waits on the deadline.
    assert!(LoadMachine::begin(false, 1_000_000).is_none());
}

#[test]
fn load_rejection_is_none() {
    let mut machine = LoadMachine::begin(true, 10).unwrap();
    match machine.on_selection_notify(false) {
        LoadStep::Finish(None) => (),
        other => panic!("unexpected step {other:?}"),
    }
}

#[test]
fn load_times_out_only_once_the_budget_is_spent() {
    let mut machine = LoadMachine::begin(true, 2).unwrap();
    assert!(matches!(machine.on_idle(), LoadStep::Continue));
    assert!(matches!(machine.on_idle(), LoadStep::Continue));
    match machine.on_idle() {
        LoadStep::Finish(None) => (),
        other => panic!("unexpected step {other:?}"),
    }
}

#[test]
fn incremental_transfer_concatenates_three_chunks() {
    let mut machine = LoadMachine::begin(true, 100).unwrap();
    assert!(matches!(machine.on_selection_notify(true), LoadStep::FetchHeader));
    // The owner announced the incremental sentinel.
    assert!(matches!(machine.on_header(true, Vec::new()), LoadStep::Continue));
    for chunk in [&b"one "[..], &b"two "[..], &b"three"[..]] {
        assert!(matches!(machine.on_chunk_signal(), LoadStep::FetchChunk));
        assert!(matches!(machine.on_chunk(chunk), LoadStep::Continue));
    }
    assert!(matches!(machine.on_chunk_signal(), LoadStep::FetchChunk));
    match machine.on_chunk(b"") {
        LoadStep::Finish(Some(bytes)) => assert_eq!(bytes, b"one two three".to_vec()),
        other => panic!("unexpected step {other:?}"),
    }
}

#[test]
fn registry_memoizes_the_first_resolution() {
    let mut registry = AtomRegistry::new();
    assert_eq!(registry.lookup(b"UTF8_STRING"), None);
    assert_eq!(registry.resolve(b"UTF8_STRING", 16), 16);
    // A later resolution with another handle keeps the first one.
    assert_eq!(registry.resolve(b"UTF8_STRING", 99), 16);
    assert_eq!(registry.lookup(b"UTF8_STRING"), Some(16));
}

#[test]
fn connection_level_round_trip_returns_the_stored_bytes() {
    let mut conn = Connection::new(false, 5, atoms());
    let mt = text_plain();
    conn.store_on_clipboard(&mt, b"ping", 100);
    let a = atoms();
    let reply =
        process_selection_request(conn.clipboard(), conn.atom_registry(), &a, &request(100), &Vec::new());
    assert_eq!(reply.writes.len(), 1);
    assert_eq!(reply.writes[0].payload, PropPayload::Bytes(b"ping".to_vec()));
    let mut machine = LoadMachine::begin(true, 4).unwrap();
    assert!(matches!(machine.on_selection_notify(true), LoadStep::FetchHeader));
    match machine.on_header(false, b"ping".to_vec()) {
        LoadStep::Finish(Some(bytes)) => assert_eq!(bytes, b"ping".to_vec()),
        other => panic!("unexpected step {other:?}"),
    }
}

#[test]
fn each_incremental_iteration_gets_the_full_wait_budget() {
    let mut machine = LoadMachine::begin(true, 2).unwrap();
    assert!(matches!(machine.on_selection_notify(true), LoadStep::FetchHeader));
    assert!(matches!(machine.on_header(true, Vec::new()), LoadStep::Continue));
    // Two ticks of the budget pass waiting for the first chunk.
    assert!(matches!(machine.on_idle(), LoadStep::Continue));
    assert!(matches!(machine.on_idle(), LoadStep::Continue));
    // The chunk arrives in time; the next wait starts with the full
    // budget again rather than the leftovers.
    assert!(matches!(machine.on_chunk_signal(), LoadStep::FetchChunk));
    assert!(matches!(machine.on_chunk(b"data"), LoadStep::Continue));
    assert!(matches!(machine.on_idle(), LoadStep::Continue));
    assert!(matches!(machine.on_idle(), LoadStep::Continue));
    match machine.on_idle() {
        LoadStep::Finish(None) => (),
        other => panic!("unexpected step {other:?}"),
    }
}
