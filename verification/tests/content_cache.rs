use s3proxy::content_cache::{
    entry_path, hash_filename, staging_path, to_hex, Phase, Population, TeeAction, TeeEvent,
};
use std::collections::HashMap;

#[test]
fn names_are_sha256_digests_in_hex() {
    assert_eq!(
        hash_filename("bucket", "key", ""),
        "d9d9d975bf0d7fa618024b2ae34db440832e69c181e5ba315369a9991ce1a9a5"
    );
    assert_eq!(
        hash_filename("bucket", "key", "bytes=0-9"),
        "25774b04cb85ae215eb30dac496cc9014dfeb9e4db076bce7537de1c91e9b503"
    );
    assert_eq!(
        hash_filename("bé", "k", ""),
        "38acf61bb824ff68e49d84b0045b34131b80ca90af3576d5e79fdd0b834d00f3"
    );
}

#[test]
fn names_are_64_hex_digits_whatever_the_key_holds() {
    for (bucket, key, range) in [("", "", ""), ("b", "../../etc", ""), ("b", ".hidden/é", "bytes=0-")] {
        let name = hash_filename(bucket, key, range);
        assert_eq!(name.len(), 64);
        assert!(name.chars().all(|c| c.is_ascii_digit() || ('a'..='f').contains(&c)));
    }
}

#[test]
fn ranges_of_one_object_have_different_names() {
    assert_ne!(hash_filename("b", "k", ""), hash_filename("b", "k", "bytes=0-1"));
    assert_ne!(hash_filename("b", "k", "bytes=0-1"), hash_filename("b", "k", "bytes=0-2"));
    assert_eq!(hash_filename("b", "k", "bytes=0-1"), hash_filename("b", "k", "bytes=0-1"));
}

#[test]
fn hex_has_two_lower_case_digits_for_each_byte() {
    assert_eq!(to_hex(&vec![0x00, 0x0f, 0xa0, 0xff, 0x9c]), "000fa0ff9c");
    assert_eq!(to_hex(&Vec::new()), "");
}

#[test]
fn staging_path_is_hidden_beside_the_final_path() {
    assert_eq!(entry_path("abc"), "data/abc");
    assert_eq!(staging_path("abc", 0), "data/.abc.0");
    assert_eq!(staging_path("abc", 17), "data/.abc.17");
    assert_eq!(staging_path("abc", u64::MAX), "data/.abc.18446744073709551615");
    let name = hash_filename("bucket", "key", "");
    assert_ne!(entry_path(&name), staging_path(&name, 0));
    assert_ne!(staging_path(&name, 1), staging_path(&name, 2));
}

#[test]
fn whole_response_is_teed_then_promoted() {
    let mut p = Population::begin("n".to_string(), 7);
    assert_eq!(p.phase, Phase::Teeing);
    assert!(!p.is_over());
    assert_eq!(p.on_event(TeeEvent::Chunk), TeeAction::Tee);
    assert_eq!(p.on_event(TeeEvent::Chunk), TeeAction::Tee);
    assert_eq!(p.on_event(TeeEvent::Stored), TeeAction::Ignore);
    assert_eq!(p.phase, Phase::Teeing);
    assert_eq!(p.on_event(TeeEvent::End), TeeAction::Promote);
    assert_eq!(p.phase, Phase::Promoting);
    assert!(!p.is_over());
    assert_eq!(p.on_event(TeeEvent::Chunk), TeeAction::Ignore);
    assert_eq!(p.on_event(TeeEvent::ClientGone), TeeAction::Ignore);
    assert_eq!(p.on_event(TeeEvent::BackendError), TeeAction::Ignore);
    assert_eq!(p.on_event(TeeEvent::End), TeeAction::Ignore);
    assert_eq!(p.phase, Phase::Promoting);
    assert_eq!(p.on_event(TeeEvent::Stored), TeeAction::Ignore);
    assert_eq!(p.phase, Phase::Promoted);
    assert!(p.is_over());
    assert_eq!(p.on_event(TeeEvent::Chunk), TeeAction::Ignore);
    assert_eq!(p.on_event(TeeEvent::WriteFailed), TeeAction::Ignore);
    assert_eq!(p.on_event(TeeEvent::End), TeeAction::Ignore);
    assert_eq!(p.phase, Phase::Promoted);
    assert_eq!(p.name, "n");
    assert_eq!(p.serial, 7);
}

#[test]
fn failed_renaming_discards_the_entry_after_the_client_got_all() {
    let mut p = Population::begin("n".to_string(), 7);
    assert_eq!(p.on_event(TeeEvent::Chunk), TeeAction::Tee);
    assert_eq!(p.on_event(TeeEvent::End), TeeAction::Promote);
    assert_eq!(p.on_event(TeeEvent::WriteFailed), TeeAction::Discard);
    assert_eq!(p.phase, Phase::Finished);
    assert!(p.is_over());
    assert_eq!(p.on_event(TeeEvent::Stored), TeeAction::Ignore);
    assert_eq!(p.phase, Phase::Finished);
}

#[test]
fn backend_error_abandons_the_entry() {
    let mut p = Population::begin("n".to_string(), 7);
    assert_eq!(p.on_event(TeeEvent::Chunk), TeeAction::Tee);
    assert_eq!(p.on_event(TeeEvent::BackendError), TeeAction::Abandon);
    assert_eq!(p.phase, Phase::Aborted);
    assert_eq!(p.on_event(TeeEvent::End), TeeAction::Ignore);
    assert_eq!(p.phase, Phase::Aborted);
}

#[test]
fn client_leaving_abandons_the_entry() {
    let mut p = Population::begin("n".to_string(), 7);
    assert_eq!(p.on_event(TeeEvent::ClientGone), TeeAction::Abandon);
    assert_eq!(p.phase, Phase::Aborted);
}

#[test]
fn write_failure_discards_but_keeps_delivering() {
    let mut p = Population::begin("n".to_string(), 7);
    assert_eq!(p.on_event(TeeEvent::Chunk), TeeAction::Tee);
    assert_eq!(p.on_event(TeeEvent::WriteFailed), TeeAction::Discard);
    assert_eq!(p.phase, Phase::Delivering);
    assert_eq!(p.on_event(TeeEvent::WriteFailed), TeeAction::Ignore);
    assert_eq!(p.on_event(TeeEvent::Stored), TeeAction::Ignore);
    assert_eq!(p.on_event(TeeEvent::Chunk), TeeAction::Deliver);
    assert_eq!(p.on_event(TeeEvent::End), TeeAction::Finish);
    assert_eq!(p.phase, Phase::Finished);
    assert!(p.is_over());
}

#[test]
fn delivering_stops_on_error_or_when_the_client_leaves() {
    let mut p = Population::begin("n".to_string(), 7);
    p.on_event(TeeEvent::WriteFailed);
    assert_eq!(p.on_event(TeeEvent::BackendError), TeeAction::Stop);
    assert_eq!(p.phase, Phase::Aborted);
    let mut q = Population::begin("n".to_string(), 7);
    q.on_event(TeeEvent::WriteFailed);
    assert_eq!(q.on_event(TeeEvent::ClientGone), TeeAction::Stop);
    assert_eq!(q.phase, Phase::Aborted);
}

/// A cache root and a client, doing what a population asks.
struct World {
    disk: HashMap<String, Vec<u8>>,
    delivered: Vec<u8>,
    renaming_fails: bool,
}

fn apply(world: &mut World, p: &mut Population, event: TeeEvent, bytes: &[u8]) {
    let temp = staging_path(&p.name, p.serial);
    match p.on_event(event) {
        TeeAction::Tee => {
            world.delivered.extend_from_slice(bytes);
            world.disk.get_mut(&temp).unwrap().extend_from_slice(bytes);
        }
        TeeAction::Deliver => world.delivered.extend_from_slice(bytes),
        TeeAction::Promote => {
            if world.renaming_fails {
                apply(world, p, TeeEvent::WriteFailed, b"");
            } else {
                let bytes = world.disk.remove(&temp).unwrap();
                world.disk.insert(entry_path(&p.name), bytes);
                apply(world, p, TeeEvent::Stored, b"");
            }
        }
        TeeAction::Discard | TeeAction::Abandon => {
            world.disk.remove(&temp);
        }
        TeeAction::Finish | TeeAction::Stop | TeeAction::Ignore => {}
    }
}

fn start(world: &mut World, name: &str, serial: u64) -> Population {
    world.disk.insert(staging_path(name, serial), Vec::new());
    Population::begin(name.to_string(), serial)
}

fn run(world: &mut World, name: &str, events: &[(TeeEvent, &[u8])]) -> Phase {
    let mut p = start(world, name, 0);
    for (event, bytes) in events {
        apply(world, &mut p, *event, bytes);
    }
    p.phase
}

#[test]
fn population_stores_exactly_what_was_delivered() {
    let mut world = World { disk: HashMap::new(), delivered: Vec::new(), renaming_fails: false };
    let events: Vec<(TeeEvent, &[u8])> =
        vec![(TeeEvent::Chunk, b"hel"), (TeeEvent::Chunk, b"lo "), (TeeEvent::Chunk, b"world"), (TeeEvent::End, b"")];
    assert_eq!(run(&mut world, "n", &events), Phase::Promoted);
    assert_eq!(world.delivered, b"hello world");
    assert_eq!(world.disk.get("data/n"), Some(&b"hello world".to_vec()));
    assert_eq!(world.disk.len(), 1);
}

#[test]
fn interrupted_population_leaves_no_entry() {
    for failure in [TeeEvent::BackendError, TeeEvent::WriteFailed, TeeEvent::ClientGone] {
        let mut world = World { disk: HashMap::new(), delivered: Vec::new(), renaming_fails: false };
        let events: Vec<(TeeEvent, &[u8])> =
            vec![(TeeEvent::Chunk, b"par"), (failure, b""), (TeeEvent::Chunk, b"tial"), (TeeEvent::End, b"")];
        let phase = run(&mut world, "n", &events);
        assert_ne!(phase, Phase::Promoted);
        assert!(world.disk.is_empty());
    }
}

#[test]
fn interrupted_population_leaves_an_older_entry_as_it_was() {
    let mut world = World { disk: HashMap::new(), delivered: Vec::new(), renaming_fails: false };
    world.disk.insert("data/n".to_string(), b"old".to_vec());
    world.disk.insert("data/other".to_string(), b"other".to_vec());
    let events: Vec<(TeeEvent, &[u8])> = vec![(TeeEvent::Chunk, b"new"), (TeeEvent::BackendError, b"")];
    assert_eq!(run(&mut world, "n", &events), Phase::Aborted);
    assert_eq!(world.disk.get("data/n"), Some(&b"old".to_vec()));
    assert_eq!(world.disk.get("data/other"), Some(&b"other".to_vec()));
    assert_eq!(world.disk.len(), 2);
}

#[test]
fn storage_failure_still_delivers_the_whole_response() {
    let mut world = World { disk: HashMap::new(), delivered: Vec::new(), renaming_fails: false };
    let events: Vec<(TeeEvent, &[u8])> =
        vec![(TeeEvent::Chunk, b"ab"), (TeeEvent::WriteFailed, b""), (TeeEvent::Chunk, b"cd"), (TeeEvent::End, b"")];
    assert_eq!(run(&mut world, "n", &events), Phase::Finished);
    assert_eq!(world.delivered, b"abcd");
    assert!(world.disk.is_empty());
}

#[test]
fn populations_of_one_entry_do_not_mix_their_bytes() {
    let mut world = World { disk: HashMap::new(), delivered: Vec::new(), renaming_fails: false };
    let mut first = start(&mut world, "n", 1);
    let mut second = start(&mut world, "n", 2);
    let mut third = start(&mut world, "n", 3);
    apply(&mut world, &mut first, TeeEvent::Chunk, b"aaa");
    apply(&mut world, &mut second, TeeEvent::Chunk, b"bb");
    apply(&mut world, &mut third, TeeEvent::Chunk, b"c");
    assert_eq!(world.disk.get("data/n"), None);
    apply(&mut world, &mut second, TeeEvent::Chunk, b"BB");
    apply(&mut world, &mut first, TeeEvent::Chunk, b"AAA");
    apply(&mut world, &mut third, TeeEvent::BackendError, b"");
    assert_eq!(world.disk.get("data/n"), None);
    assert_eq!(world.disk.get("data/.n.3"), None);
    apply(&mut world, &mut second, TeeEvent::End, b"");
    assert_eq!(world.disk.get("data/n"), Some(&b"bbBB".to_vec()));
    assert_eq!(world.disk.get("data/.n.1"), Some(&b"aaaAAA".to_vec()));
    apply(&mut world, &mut first, TeeEvent::End, b"");
    assert_eq!(world.disk.get("data/n"), Some(&b"aaaAAA".to_vec()));
    assert_eq!(world.disk.len(), 1);
    assert_eq!(first.phase, Phase::Promoted);
    assert_eq!(second.phase, Phase::Promoted);
    assert_eq!(third.phase, Phase::Aborted);
}

#[test]
fn failed_renaming_leaves_no_entry() {
    let mut world = World { disk: HashMap::new(), delivered: Vec::new(), renaming_fails: true };
    world.disk.insert("data/n".to_string(), b"old".to_vec());
    let events: Vec<(TeeEvent, &[u8])> = vec![(TeeEvent::Chunk, b"new "), (TeeEvent::Chunk, b"bytes"), (TeeEvent::End, b"")];
    assert_eq!(run(&mut world, "n", &events), Phase::Finished);
    assert_eq!(world.delivered, b"new bytes");
    assert_eq!(world.disk.get("data/n"), Some(&b"old".to_vec()));
    assert_eq!(world.disk.len(), 1);
}
