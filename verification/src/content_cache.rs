//! The content cache: how cached ranges are named on disk, and the rules by
//! which one backend response is handed to the client and stored at once.

use vstd::prelude::*;
use vstd::utf8::encode_utf8;
use crate::decimal::{decimal_digits, digits_value, lemma_decimal_digits_are_digits, render_u64};
use sha2::{Digest, Sha256};

verus! {

/// The SHA-256 digest of a sequence of bytes.
pub uninterp spec fn sha256_digest(input: Seq<u8>) -> Seq<u8>;

/// Calls `Sha256::digest` of the crate `sha2`: the result is the SHA-256
/// digest of the input, which has 32 bytes.
#[verifier::external_body]
fn sha256(input: &[u8]) -> (digest: Vec<u8>)
    ensures
        digest@ == sha256_digest(input@),
        digest@.len() == 32,
{
    Sha256::digest(input).to_vec()
}

/// The lower-case hexadecimal digit of a number below 16.
pub open spec fn hex_digit(n: nat) -> char {
    if n < 10 {
        ((n + '0' as nat) as u8) as char
    } else {
        ((n - 10 + 'a' as nat) as u8) as char
    }
}

/// Bytes written as lower-case hexadecimal digits, two for each byte.
pub open spec fn hex_lower(bytes: Seq<u8>) -> Seq<char> {
    Seq::new(
        2 * bytes.len(),
        |i: int|
            if i % 2 == 0 {
                hex_digit((bytes[i / 2] / 16) as nat)
            } else {
                hex_digit((bytes[i / 2] % 16) as nat)
            },
    )
}

/// The lower-case hexadecimal digit of a number below 16.
fn hex_char(n: u8) -> (c: char)
    requires
        n < 16,
    ensures
        c == hex_digit(n as nat),
{
    if n < 10 {
        (n + '0' as u8) as char
    } else {
        (n - 10 + 'a' as u8) as char
    }
}

/// Writes bytes as lower-case hexadecimal digits.
pub fn to_hex(bytes: &Vec<u8>) -> (r: String)
    ensures
        r@ == hex_lower(bytes@),
{
    let mut r = String::new();
    let mut i: usize = 0;
    while i < bytes.len()
        invariant
            i <= bytes.len(),
            r@ == hex_lower(bytes@.take(i as int)),
        decreases bytes.len() - i,
    {
        let b = bytes[i];
        r.push(hex_char(b / 16));
        r.push(hex_char(b % 16));
        i += 1;
    }
    r
}

/// What is hashed to name a cached range: bucket, key and the value of the
/// range header (empty where there is none), with `/` between them.
pub open spec fn cache_subject(bucket: Seq<char>, key: Seq<char>, range: Seq<char>) -> Seq<char> {
    bucket + seq!['/'] + key + seq!['/'] + range
}

/// The name under which a range of an object is cached: the SHA-256 digest
/// of its subject in UTF-8, in hexadecimal.
pub open spec fn cache_name(bucket: Seq<char>, key: Seq<char>, range: Seq<char>) -> Seq<char> {
    hex_lower(sha256_digest(encode_utf8(cache_subject(bucket, key, range))))
}

/// Whether a character is a lower-case hexadecimal digit.
pub open spec fn is_hex_char(c: char) -> bool {
    ('0' <= c && c <= '9') || ('a' <= c && c <= 'f')
}

/// The name under which a range of an object is cached: 64 lower-case
/// hexadecimal digits, and so one path component that does not begin with
/// a `.`.
pub fn hash_filename(bucket: &str, key: &str, range: &str) -> (name: String)
    ensures
        name@ == cache_name(bucket@, key@, range@),
        name@.len() == 64,
        forall|i: int| 0 <= i < 64 ==> is_hex_char(#[trigger] name@[i]),
{
    let mut subject = String::new();
    subject.append(bucket);
    subject.push('/');
    subject.append(key);
    subject.push('/');
    subject.append(range);
    assert(subject@ == cache_subject(bucket@, key@, range@));
    let digest = sha256(subject.as_str().as_bytes());
    to_hex(&digest)
}

/// The path of the finished entry with the given name.
pub open spec fn final_path(name: Seq<char>) -> Seq<char> {
    "data/"@ + name
}

/// The path under which the entry with the given name is written before it
/// is finished, by the population with the given serial number: it is
/// hidden, and no two populations share it.
pub open spec fn temp_path(name: Seq<char>, serial: u64) -> Seq<char> {
    "data/."@ + name + seq!['.'] + decimal_digits(serial as nat)
}

/// The path of the finished entry with the given name.
pub fn entry_path(name: &str) -> (path: String)
    ensures
        path@ == final_path(name@),
{
    let mut path = String::from_str("data/");
    path.append(name);
    path
}

/// The path under which the population with the given serial number writes
/// the entry with the given name before it is finished.
pub fn staging_path(name: &str, serial: u64) -> (path: String)
    ensures
        path@ == temp_path(name@, serial),
{
    let mut path = String::from_str("data/.");
    path.append(name);
    path.push('.');
    let digits = render_u64(serial);
    path.append(digits.as_str());
    path
}

/// No population writes under a path that is the finished path of an
/// entry, of this range or of any other.
pub proof fn lemma_staging_is_never_final(
    bucket: Seq<char>,
    key: Seq<char>,
    range: Seq<char>,
    serial: u64,
    other_bucket: Seq<char>,
    other_key: Seq<char>,
    other_range: Seq<char>,
)
    ensures
        temp_path(cache_name(bucket, key, range), serial) != final_path(
            cache_name(other_bucket, other_key, other_range),
        ),
{
    reveal_strlit("data/");
    reveal_strlit("data/.");
    let a = cache_name(bucket, key, range);
    let b = cache_name(other_bucket, other_key, other_range);
    let temp = temp_path(a, serial);
    let done = final_path(b);
    if temp == done {
        assert(temp[5] == '.');
        assert(done.len() == temp.len());
        assert(b.len() > 0);
        assert(done[5] == b[0]);
        let digest = sha256_digest(encode_utf8(cache_subject(other_bucket, other_key, other_range)));
        assert(b[0] == hex_digit((digest[0] / 16) as nat));
        assert(false);
    }
}

/// Two populations that write the same entry write under different paths,
/// and neither writes under the finished path.
pub proof fn lemma_staging_paths_differ(name: Seq<char>, serial: u64, other: u64)
    ensures
        temp_path(name, serial) != final_path(name),
        serial != other ==> temp_path(name, serial) != temp_path(name, other),
{
    reveal_strlit("data/");
    reveal_strlit("data/.");
    lemma_decimal_digits_are_digits(serial as nat);
    lemma_decimal_digits_are_digits(other as nat);
    assert(temp_path(name, serial).len() > final_path(name).len());
    if serial != other && temp_path(name, serial) == temp_path(name, other) {
        let head = "data/."@ + name + seq!['.'];
        let a = decimal_digits(serial as nat);
        let b = decimal_digits(other as nat);
        assert(temp_path(name, serial).skip(head.len() as int) == a);
        assert(temp_path(name, other).skip(head.len() as int) == b);
        assert(digits_value(a) == digits_value(b));
    }
}

/// How far the handing-on of one backend response has come.
#[derive(Clone, Copy, Debug, PartialEq, Eq, Structural)]
pub enum Phase {
    /// Chunks go to the client and to the temporary file.
    Teeing,
    /// Storing has failed; chunks go to the client only.
    Delivering,
    /// The response ended and the client has all of it; the temporary file
    /// is being renamed to the final path.
    Promoting,
    /// The response ended and the entry was made final.
    Promoted,
    /// The response ended; nothing was stored.
    Finished,
    /// The response was cut short; nothing was stored.
    Aborted,
}

/// What happened while a backend response is handed on.
#[derive(Clone, Copy, Debug, PartialEq, Eq, Structural)]
pub enum TeeEvent {
    /// The backend sent a chunk.
    Chunk,
    /// The backend response ended without error.
    End,
    /// The backend response broke off.
    BackendError,
    /// Writing to the temporary file failed.
    WriteFailed,
    /// The client no longer takes the response.
    ClientGone,
    /// The temporary file was renamed to the final path.
    Stored,
}

/// What is to be done about an event.
#[derive(Clone, Copy, Debug, PartialEq, Eq, Structural)]
pub enum TeeAction {
    /// Hand the chunk to the client and append it to the temporary file.
    Tee,
    /// Hand the chunk to the client.
    Deliver,
    /// End the client's response, then flush the temporary file and
    /// rename it to the final path, and come back with `Stored` or, if
    /// that could not be done, with `WriteFailed`.
    Promote,
    /// End the client's response.
    Finish,
    /// Remove the temporary file; the client's response is not touched.
    Discard,
    /// Remove the temporary file, break the client's response off and stop.
    Abandon,
    /// Break the client's response off and stop.
    Stop,
    /// Nothing.
    Ignore,
}

/// The phase after an event, and what is to be done about the event. While
/// the entry is being made final the response has ended for the client, so
/// that only the outcome of the renaming counts.
pub open spec fn tee_step(phase: Phase, event: TeeEvent) -> (Phase, TeeAction) {
    match phase {
        Phase::Teeing => match event {
            TeeEvent::Chunk => (Phase::Teeing, TeeAction::Tee),
            TeeEvent::End => (Phase::Promoting, TeeAction::Promote),
            TeeEvent::BackendError => (Phase::Aborted, TeeAction::Abandon),
            TeeEvent::WriteFailed => (Phase::Delivering, TeeAction::Discard),
            TeeEvent::ClientGone => (Phase::Aborted, TeeAction::Abandon),
            TeeEvent::Stored => (Phase::Teeing, TeeAction::Ignore),
        },
        Phase::Delivering => match event {
            TeeEvent::Chunk => (Phase::Delivering, TeeAction::Deliver),
            TeeEvent::End => (Phase::Finished, TeeAction::Finish),
            TeeEvent::BackendError => (Phase::Aborted, TeeAction::Stop),
            TeeEvent::WriteFailed => (Phase::Delivering, TeeAction::Ignore),
            TeeEvent::ClientGone => (Phase::Aborted, TeeAction::Stop),
            TeeEvent::Stored => (Phase::Delivering, TeeAction::Ignore),
        },
        Phase::Promoting => match event {
            TeeEvent::Stored => (Phase::Promoted, TeeAction::Ignore),
            TeeEvent::WriteFailed => (Phase::Finished, TeeAction::Discard),
            _ => (Phase::Promoting, TeeAction::Ignore),
        },
        _ => (phase, TeeAction::Ignore),
    }
}

/// One backend response on its way to the client and into the cache.
#[derive(Clone, Debug, PartialEq, Eq)]
pub struct Population {
    /// The name of the entry that is being written.
    pub name: String,
    /// The number that sets this population apart from every other.
    pub serial: u64,
    pub phase: Phase,
}

impl Population {
    /// Starts handing on a response for the entry with the given name. The
    /// caller creates the empty temporary file at
    /// `staging_path(name, serial)`.
    pub fn begin(name: String, serial: u64) -> (p: Population)
        ensures
            p.name@ == name@,
            p.serial == serial,
            p.phase == Phase::Teeing,
    {
        Population { name, serial, phase: Phase::Teeing }
    }

    /// Takes an event in and says what is to be done about it.
    pub fn on_event(&mut self, event: TeeEvent) -> (action: TeeAction)
        ensures
            (final(self).phase, action) == tee_step(old(self).phase, event),
            final(self).name == old(self).name,
            final(self).serial == old(self).serial,
    {
        let (phase, action) = match self.phase {
            Phase::Teeing => match event {
                TeeEvent::Chunk => (Phase::Teeing, TeeAction::Tee),
                TeeEvent::End => (Phase::Promoting, TeeAction::Promote),
                TeeEvent::BackendError => (Phase::Aborted, TeeAction::Abandon),
                TeeEvent::WriteFailed => (Phase::Delivering, TeeAction::Discard),
                TeeEvent::ClientGone => (Phase::Aborted, TeeAction::Abandon),
                TeeEvent::Stored => (Phase::Teeing, TeeAction::Ignore),
            },
            Phase::Delivering => match event {
                TeeEvent::Chunk => (Phase::Delivering, TeeAction::Deliver),
                TeeEvent::End => (Phase::Finished, TeeAction::Finish),
                TeeEvent::BackendError => (Phase::Aborted, TeeAction::Stop),
                TeeEvent::WriteFailed => (Phase::Delivering, TeeAction::Ignore),
                TeeEvent::ClientGone => (Phase::Aborted, TeeAction::Stop),
                TeeEvent::Stored => (Phase::Delivering, TeeAction::Ignore),
            },
            Phase::Promoting => match event {
                TeeEvent::Stored => (Phase::Promoted, TeeAction::Ignore),
                TeeEvent::WriteFailed => (Phase::Finished, TeeAction::Discard),
                _ => (Phase::Promoting, TeeAction::Ignore),
            },
            Phase::Promoted => (Phase::Promoted, TeeAction::Ignore),
            Phase::Finished => (Phase::Finished, TeeAction::Ignore),
            Phase::Aborted => (Phase::Aborted, TeeAction::Ignore),
        };
        self.phase = phase;
        action
    }

    /// Whether nothing more is to be done for this response.
    pub fn is_over(&self) -> (b: bool)
        ensures
            b == (self.phase == Phase::Promoted || self.phase == Phase::Finished || self.phase
                == Phase::Aborted),
    {
        match self.phase {
            Phase::Promoted | Phase::Finished | Phase::Aborted => true,
            _ => false,
        }
    }
}

/// One population as the rules of the cache speak of it: its phase and the
/// bytes that its client has been handed.
pub struct Run {
    pub phase: Phase,
    pub delivered: Seq<u8>,
}

/// The cache root and the populations that write one entry, by their
/// serial numbers: the bytes under each path, and each population.
pub struct CacheWorld {
    pub disk: Map<Seq<char>, Seq<u8>>,
    pub runs: Map<u64, Run>,
}

/// What happens to a population: it starts, or an event comes with the
/// chunk that a `Chunk` event brings.
pub enum Happening {
    Started,
    Event(TeeEvent, Seq<u8>),
}

/// A cache root with no population.
pub open spec fn quiet_world(disk: Map<Seq<char>, Seq<u8>>) -> CacheWorld {
    CacheWorld { disk, runs: Map::empty() }
}

/// What a path holds, if anything.
pub open spec fn entry_at(disk: Map<Seq<char>, Seq<u8>>, path: Seq<char>) -> Option<Seq<u8>> {
    if disk.contains_key(path) {
        Some(disk[path])
    } else {
        None
    }
}

/// Whether an event reports that a population has renamed its temporary
/// file to the final path.
pub open spec fn is_storing(phase: Phase, event: TeeEvent) -> bool {
    phase == Phase::Promoting && event == TeeEvent::Stored
}

/// Whether a population in this phase holds a temporary file.
pub open spec fn holds_temp(phase: Phase) -> bool {
    phase == Phase::Teeing || phase == Phase::Promoting
}

/// The world after something has happened to the population `serial` of
/// the entry `name`, once what `tee_step` asks for has been done. A
/// population that starts gets an empty temporary file. The finished path
/// changes only when a population that is making its entry final reports
/// that the renaming was done. What happens to a population that has not
/// started, and a second start, changes nothing.
pub open spec fn world_step(world: CacheWorld, name: Seq<char>, serial: u64, what: Happening)
    -> CacheWorld {
    let temp = temp_path(name, serial);
    match what {
        Happening::Started => if world.runs.contains_key(serial) {
            world
        } else {
            CacheWorld {
                disk: world.disk.insert(temp, Seq::empty()),
                runs: world.runs.insert(
                    serial,
                    Run { phase: Phase::Teeing, delivered: Seq::empty() },
                ),
            }
        },
        Happening::Event(event, bytes) => if !world.runs.contains_key(serial) {
            world
        } else {
            let run = world.runs[serial];
            let (phase, action) = tee_step(run.phase, event);
            if is_storing(run.phase, event) {
                CacheWorld {
                    disk: world.disk.insert(final_path(name), world.disk[temp]).remove(temp),
                    runs: world.runs.insert(serial, Run { phase, ..run }),
                }
            } else {
            match action {
                TeeAction::Tee => CacheWorld {
                    disk: world.disk.insert(temp, world.disk[temp] + bytes),
                    runs: world.runs.insert(
                        serial,
                        Run { phase, delivered: run.delivered + bytes },
                    ),
                },
                TeeAction::Deliver => CacheWorld {
                    runs: world.runs.insert(
                        serial,
                        Run { phase, delivered: run.delivered + bytes },
                    ),
                    ..world
                },
                TeeAction::Discard | TeeAction::Abandon => CacheWorld {
                    disk: world.disk.remove(temp),
                    runs: world.runs.insert(serial, Run { phase, ..run }),
                },
                TeeAction::Promote | TeeAction::Finish | TeeAction::Stop | TeeAction::Ignore =>
                    CacheWorld { runs: world.runs.insert(serial, Run { phase, ..run }), ..world },
            }
            }
        },
    }
}

/// The world after a run of happenings, each to the population whose
/// serial number comes with it, in the order in which they happen.
pub open spec fn world_after(world: CacheWorld, name: Seq<char>, trace: Seq<(u64, Happening)>)
    -> CacheWorld
    decreases trace.len(),
{
    if trace.len() == 0 {
        world
    } else {
        world_step(world_after(world, name, trace.drop_last()), name, trace.last().0, trace.last().1)
    }
}

/// Whether a path is the temporary file of a population of the entry.
pub open spec fn is_temp_of(path: Seq<char>, name: Seq<char>) -> bool {
    exists|serial: u64| path == #[trigger] temp_path(name, serial)
}

/// What holds of the world at every moment, however many populations
/// write the entry `name` at once, starting from `disk`: the finished path
/// holds what it held at the start as long as no population is promoted,
/// and from then on all that a promoted population has handed to its
/// client, never a part of it; a population that is teeing or making its
/// entry final
/// has written what it has handed on, and the temporary file of every other
/// population that has started is gone; nothing else changes.
pub open spec fn cache_is_sound(disk: Map<Seq<char>, Seq<u8>>, name: Seq<char>, world: CacheWorld)
    -> bool {
    let done = final_path(name);
    &&& forall|p: Seq<char>|
        p != done && !is_temp_of(p, name) ==> #[trigger] entry_at(world.disk, p) == entry_at(
            disk,
            p,
        )
    &&& forall|serial: u64|
        !world.runs.contains_key(serial) ==> entry_at(
            world.disk,
            #[trigger] temp_path(name, serial),
        ) == entry_at(disk, temp_path(name, serial))
    &&& forall|serial: u64| #[trigger]
        world.runs.contains_key(serial) ==> entry_at(world.disk, temp_path(name, serial)) == (
        if holds_temp(world.runs[serial].phase) {
            Some(world.runs[serial].delivered)
        } else {
            None
        })
    &&& (entry_at(world.disk, done) == entry_at(disk, done) && none_is_promoted(world)) || (
    exists|serial: u64| #[trigger]
        world.runs.contains_key(serial) && world.runs[serial].phase == Phase::Promoted
            && entry_at(world.disk, done) == Some(world.runs[serial].delivered))
}

/// Whether no population has been promoted.
pub open spec fn none_is_promoted(world: CacheWorld) -> bool {
    forall|serial: u64| #[trigger]
        world.runs.contains_key(serial) ==> world.runs[serial].phase != Phase::Promoted
}

/// One step keeps the cache sound.
proof fn lemma_step_keeps_cache_sound(
    disk: Map<Seq<char>, Seq<u8>>,
    name: Seq<char>,
    world: CacheWorld,
    serial: u64,
    what: Happening,
)
    requires
        cache_is_sound(disk, name, world),
    ensures
        cache_is_sound(disk, name, world_step(world, name, serial, what)),
{
    let next = world_step(world, name, serial, what);
    let temp = temp_path(name, serial);
    let done = final_path(name);
    lemma_staging_paths_differ(name, serial, serial);
    assert(is_temp_of(temp, name));
    assert forall|p: Seq<char>| p != done && !is_temp_of(p, name) implies #[trigger] entry_at(
        next.disk,
        p,
    ) == entry_at(disk, p) by {
        assert(entry_at(world.disk, p) == entry_at(disk, p));
        assert(p != temp);
    }
    assert forall|other: u64| !next.runs.contains_key(other) implies entry_at(
        next.disk,
        #[trigger] temp_path(name, other),
    ) == entry_at(disk, temp_path(name, other)) by {
        lemma_staging_paths_differ(name, other, serial);
        assert(!world.runs.contains_key(other));
        assert(other != serial ==> temp_path(name, other) != temp);
    }
    assert forall|other: u64| #[trigger] next.runs.contains_key(other) implies entry_at(
        next.disk,
        temp_path(name, other),
    ) == (if holds_temp(next.runs[other].phase) {
        Some(next.runs[other].delivered)
    } else {
        None
    }) by {
        lemma_staging_paths_differ(name, other, serial);
        if other != serial {
            assert(world.runs.contains_key(other));
            assert(next.runs[other] == world.runs[other]);
        } else if world.runs.contains_key(serial) {
            assert(entry_at(world.disk, temp) == (if holds_temp(world.runs[serial].phase) {
                Some(world.runs[serial].delivered)
            } else {
                None
            }));
        }
    }
    let storing = what matches Happening::Event(event, _) && world.runs.contains_key(serial)
        && is_storing(world.runs[serial].phase, event);
    if storing {
        assert(world.runs[serial].phase == Phase::Promoting);
        assert(entry_at(world.disk, temp) == Some(world.runs[serial].delivered));
        assert(next.runs.contains_key(serial));
        assert(next.runs[serial].phase == Phase::Promoted);
        assert(next.runs[serial].delivered == world.runs[serial].delivered);
        assert(entry_at(next.disk, done) == Some(next.runs[serial].delivered));
    } else {
        assert(entry_at(next.disk, done) == entry_at(world.disk, done));
        if entry_at(world.disk, done) == entry_at(disk, done) && none_is_promoted(world) {
            assert forall|other: u64| #[trigger] next.runs.contains_key(other) implies next.runs[other].phase
                != Phase::Promoted by {
                if other != serial {
                    assert(world.runs.contains_key(other));
                    assert(next.runs[other] == world.runs[other]);
                } else if world.runs.contains_key(serial) {
                    assert(world.runs[serial].phase != Phase::Promoted);
                }
            }
            assert(none_is_promoted(next));
        } else {
            let winner = choose|winner: u64| #[trigger]
                world.runs.contains_key(winner) && world.runs[winner].phase == Phase::Promoted
                    && entry_at(world.disk, done) == Some(world.runs[winner].delivered);
            assert(next.runs.contains_key(winner));
            assert(next.runs[winner].phase == Phase::Promoted);
            assert(next.runs[winner].delivered == world.runs[winner].delivered);
        }
    }
}

/// However many populations write one entry at once, and in whatever order
/// things happen to them, the cache holds no partial entry: see
/// `cache_is_sound`. The population that is promoted last decides what
/// the finished path holds.
pub proof fn lemma_cache_stays_sound(
    disk: Map<Seq<char>, Seq<u8>>,
    name: Seq<char>,
    trace: Seq<(u64, Happening)>,
)
    ensures
        cache_is_sound(disk, name, world_after(quiet_world(disk), name, trace)),
    decreases trace.len(),
{
    if trace.len() > 0 {
        lemma_cache_stays_sound(disk, name, trace.drop_last());
        lemma_step_keeps_cache_sound(
            disk,
            name,
            world_after(quiet_world(disk), name, trace.drop_last()),
            trace.last().0,
            trace.last().1,
        );
    }
}

/// Whether an event is a failure: of the backend, of the storage or of the
/// client.
pub open spec fn is_failure(event: TeeEvent) -> bool {
    event == TeeEvent::BackendError || event == TeeEvent::WriteFailed || event
        == TeeEvent::ClientGone
}

/// Whether a run of events holds a failure that comes before any `End`.
pub open spec fn is_interrupted(events: Seq<(TeeEvent, Seq<u8>)>) -> bool {
    exists|i: int|
        0 <= i < events.len() && is_failure((#[trigger] events[i]).0) && forall|j: int| 0 <= j < i ==> (#[trigger] events[j]).0
            != TeeEvent::End
}

/// The events of a response that arrives whole and is stored: its chunks,
/// its end, and the report that the entry was made final.
pub open spec fn whole_response(chunks: Seq<Seq<u8>>) -> Seq<(TeeEvent, Seq<u8>)> {
    Seq::new(chunks.len(), |i: int| (TeeEvent::Chunk, chunks[i])).push(
        (TeeEvent::End, Seq::empty()),
    ).push((TeeEvent::Stored, Seq::empty()))
}

/// The bytes of a run of chunks, in order.
pub open spec fn joined(chunks: Seq<Seq<u8>>) -> Seq<u8>
    decreases chunks.len(),
{
    if chunks.len() == 0 {
        Seq::empty()
    } else {
        joined(chunks.drop_last()) + chunks.last()
    }
}

/// What happens when one population starts and then takes a run of events,
/// with nothing happening to any other in between.
pub open spec fn alone(serial: u64, events: Seq<(TeeEvent, Seq<u8>)>) -> Seq<(u64, Happening)> {
    seq![(serial, Happening::Started)] + Seq::new(
        events.len(),
        |i: int| (serial, Happening::Event(events[i].0, events[i].1)),
    )
}

/// The world after the first `n` events of a population that works alone.
spec fn alone_after(
    disk: Map<Seq<char>, Seq<u8>>,
    name: Seq<char>,
    serial: u64,
    events: Seq<(TeeEvent, Seq<u8>)>,
    n: int,
) -> CacheWorld {
    world_after(quiet_world(disk), name, alone(serial, events).take(n + 1))
}

/// The world of a population that works alone, one happening at a time.
proof fn lemma_alone_unfolds(
    disk: Map<Seq<char>, Seq<u8>>,
    name: Seq<char>,
    serial: u64,
    events: Seq<(TeeEvent, Seq<u8>)>,
    n: int,
)
    requires
        0 <= n <= events.len(),
    ensures
        alone_after(disk, name, serial, events, n).runs.contains_key(serial),
        n == 0 ==> alone_after(disk, name, serial, events, n) == world_step(
            quiet_world(disk),
            name,
            serial,
            Happening::Started,
        ),
        n > 0 ==> alone_after(disk, name, serial, events, n) == world_step(
            alone_after(disk, name, serial, events, n - 1),
            name,
            serial,
            Happening::Event(events[n - 1].0, events[n - 1].1),
        ),
        n == events.len() ==> alone_after(disk, name, serial, events, n) == world_after(
            quiet_world(disk),
            name,
            alone(serial, events),
        ),
    decreases n,
{
    let trace = alone(serial, events);
    let upto = trace.take(n + 1);
    assert(upto.drop_last() == trace.take(n));
    assert(upto.last() == trace[n]);
    if n == 0 {
        assert(trace.take(0).len() == 0);
        assert(world_after(quiet_world(disk), name, trace.take(0)) == quiet_world(disk));
    } else {
        lemma_alone_unfolds(disk, name, serial, events, n - 1);
        assert(trace[n] == (serial, Happening::Event(events[n - 1].0, events[n - 1].1)));
    }
    if n == events.len() {
        assert(trace.take(n + 1) == trace);
    }
}

/// A population that works alone and is interrupted before the end of its
/// response is never promoted: the finished path holds what it held
/// before, and the temporary file is gone.
pub proof fn lemma_interrupted_is_not_promoted(
    disk: Map<Seq<char>, Seq<u8>>,
    name: Seq<char>,
    serial: u64,
    events: Seq<(TeeEvent, Seq<u8>)>,
)
    requires
        is_interrupted(events),
    ensures
        ({
            let world = world_after(quiet_world(disk), name, alone(serial, events));
            &&& world.runs.contains_key(serial)
            &&& world.runs[serial].phase != Phase::Promoted
            &&& world.runs[serial].phase != Phase::Teeing
            &&& entry_at(world.disk, final_path(name)) == entry_at(disk, final_path(name))
            &&& entry_at(world.disk, temp_path(name, serial)) is None
        }),
{
    let i = choose|i: int|
        0 <= i < events.len() && is_failure((#[trigger] events[i]).0) && forall|j: int| 0 <= j < i ==> (#[trigger] events[j]).0
            != TeeEvent::End;
    lemma_phase_of_run(disk, name, serial, events, i, events.len() as int);
    lemma_alone_unfolds(disk, name, serial, events, events.len() as int);
    lemma_cache_stays_sound(disk, name, alone(serial, events));
    let world = world_after(quiet_world(disk), name, alone(serial, events));
    lemma_only_one_has_started(disk, name, serial, events, events.len() as int);
    assert(world.runs.contains_key(serial));
}

/// While a population works alone, no other has started.
proof fn lemma_only_one_has_started(
    disk: Map<Seq<char>, Seq<u8>>,
    name: Seq<char>,
    serial: u64,
    events: Seq<(TeeEvent, Seq<u8>)>,
    n: int,
)
    requires
        0 <= n <= events.len(),
    ensures
        forall|other: u64| #[trigger]
            alone_after(disk, name, serial, events, n).runs.contains_key(other) ==> other == serial,
    decreases n,
{
    lemma_alone_unfolds(disk, name, serial, events, n);
    if n > 0 {
        lemma_only_one_has_started(disk, name, serial, events, n - 1);
        lemma_alone_unfolds(disk, name, serial, events, n - 1);
    }
}

/// Up to the first failure a run without `End` is teeing, delivering or
/// aborted; from the failure on it is never teeing and never promoted.
proof fn lemma_phase_of_run(
    disk: Map<Seq<char>, Seq<u8>>,
    name: Seq<char>,
    serial: u64,
    events: Seq<(TeeEvent, Seq<u8>)>,
    i: int,
    n: int,
)
    requires
        0 <= i < events.len(),
        0 <= n <= events.len(),
        is_failure(events[i].0),
        forall|j: int| 0 <= j < i ==> (#[trigger] events[j]).0 != TeeEvent::End,
    ensures
        ({
            let world = alone_after(disk, name, serial, events, n);
            let phase = world.runs[serial].phase;
            &&& world.runs.contains_key(serial)
            &&& n <= i ==> phase == Phase::Teeing || phase == Phase::Delivering
                || phase == Phase::Aborted
            &&& n > i ==> phase == Phase::Delivering || phase == Phase::Finished || phase
                == Phase::Aborted
        }),
    decreases n,
{
    lemma_alone_unfolds(disk, name, serial, events, n);
    if n > 0 {
        lemma_phase_of_run(disk, name, serial, events, i, n - 1);
    }
}

/// A response that arrives whole at a population that works alone, with
/// nothing failing, is handed to the client and promoted: the finished
/// path then holds the bytes of its chunks, in order, which are the bytes
/// that the client was handed.
pub proof fn lemma_whole_response_is_promoted(
    disk: Map<Seq<char>, Seq<u8>>,
    name: Seq<char>,
    serial: u64,
    chunks: Seq<Seq<u8>>,
)
    ensures
        ({
            let world = world_after(
                quiet_world(disk),
                name,
                alone(serial, whole_response(chunks)),
            );
            &&& world.runs.contains_key(serial)
            &&& world.runs[serial].phase == Phase::Promoted
            &&& world.runs[serial].delivered == joined(chunks)
            &&& entry_at(world.disk, final_path(name)) == Some(joined(chunks))
            &&& entry_at(world.disk, temp_path(name, serial)) is None
        }),
{
    let events = whole_response(chunks);
    let n = chunks.len() as int;
    lemma_chunks_are_teed(disk, name, serial, chunks, n);
    lemma_alone_unfolds(disk, name, serial, events, n + 1);
    lemma_alone_unfolds(disk, name, serial, events, n + 2);
    lemma_staging_paths_differ(name, serial, serial);
    assert(chunks.take(n) == chunks);
    let teed = alone_after(disk, name, serial, events, n);
    let ended = alone_after(disk, name, serial, events, n + 1);
    let stored = alone_after(disk, name, serial, events, n + 2);
    assert(events[n] == (TeeEvent::End, Seq::<u8>::empty()));
    assert(events[n + 1] == (TeeEvent::Stored, Seq::<u8>::empty()));
    assert(ended == world_step(teed, name, serial, Happening::Event(TeeEvent::End, Seq::empty())));
    assert(ended.runs[serial].phase == Phase::Promoting);
    assert(ended.disk == teed.disk);
    assert(stored == world_step(
        ended,
        name,
        serial,
        Happening::Event(TeeEvent::Stored, Seq::empty()),
    ));
}

/// When the renaming fails at the end of a response that arrived whole,
/// the client has been handed all of it, and nothing is stored: the
/// finished path holds what it held before and the temporary file is gone.
pub proof fn lemma_failed_promotion_stores_nothing(
    disk: Map<Seq<char>, Seq<u8>>,
    name: Seq<char>,
    serial: u64,
    chunks: Seq<Seq<u8>>,
)
    ensures
        ({
            let events = whole_response(chunks).drop_last().push(
                (TeeEvent::WriteFailed, Seq::empty()),
            );
            let world = world_after(quiet_world(disk), name, alone(serial, events));
            &&& world.runs.contains_key(serial)
            &&& world.runs[serial].phase == Phase::Finished
            &&& world.runs[serial].delivered == joined(chunks)
            &&& entry_at(world.disk, final_path(name)) == entry_at(disk, final_path(name))
            &&& entry_at(world.disk, temp_path(name, serial)) is None
        }),
{
    let events = whole_response(chunks).drop_last().push((TeeEvent::WriteFailed, Seq::empty()));
    let trace = alone(serial, events);
    lemma_populations_do_not_interfere(disk, name, trace, serial);
    lemma_cache_stays_sound(disk, name, trace);
    lemma_alone_events(serial, events, events.len() as int);
    let n = chunks.len() as int;
    assert(trace.take(events.len() as int + 1) == trace);
    assert(events.take(events.len() as int) == events);
    assert(events.drop_last() == whole_response(chunks).take(n + 1));
    lemma_run_of_whole_response(chunks, n + 1);
    let world = world_after(quiet_world(disk), name, trace);
    lemma_only_one_has_started(disk, name, serial, events, events.len() as int);
    lemma_alone_unfolds(disk, name, serial, events, events.len() as int);
    assert(none_is_promoted(world));
}

/// A population that works alone has started and has taken its events.
proof fn lemma_alone_events(serial: u64, events: Seq<(TeeEvent, Seq<u8>)>, n: int)
    requires
        0 <= n <= events.len(),
    ensures
        has_started(alone(serial, events).take(n + 1), serial),
        events_of(alone(serial, events).take(n + 1), serial) == events.take(n),
    decreases n,
{
    let trace = alone(serial, events);
    let upto = trace.take(n + 1);
    assert(upto.drop_last() == trace.take(n));
    assert(upto.last() == trace[n]);
    if n == 0 {
        assert(trace.take(0).len() == 0);
        assert(events_of(trace.take(0), serial).len() == 0);
        assert(events.take(0).len() == 0);
    } else {
        lemma_alone_events(serial, events, n - 1);
        assert(trace[n] == (serial, Happening::Event(events[n - 1].0, events[n - 1].1)));
        assert(events.take(n).drop_last() == events.take(n - 1));
        assert(events.take(n).last() == events[n - 1]);
    }
}

/// While the chunks of a whole response arrive, the population is teeing
/// and has written what it has handed on.
proof fn lemma_chunks_are_teed(
    disk: Map<Seq<char>, Seq<u8>>,
    name: Seq<char>,
    serial: u64,
    chunks: Seq<Seq<u8>>,
    n: int,
)
    requires
        0 <= n <= chunks.len(),
    ensures
        ({
            let world = alone_after(disk, name, serial, whole_response(chunks), n);
            &&& world.runs.contains_key(serial)
            &&& world.runs[serial].phase == Phase::Teeing
            &&& world.runs[serial].delivered == joined(chunks.take(n))
            &&& entry_at(world.disk, temp_path(name, serial)) == Some(joined(chunks.take(n)))
        }),
    decreases n,
{
    let events = whole_response(chunks);
    lemma_alone_unfolds(disk, name, serial, events, n);
    if n > 0 {
        lemma_chunks_are_teed(disk, name, serial, chunks, n - 1);
        assert(events[n - 1] == (TeeEvent::Chunk, chunks[n - 1]));
        assert(chunks.take(n).drop_last() == chunks.take(n - 1));
        assert(chunks.take(n).last() == chunks[n - 1]);
    } else {
        assert(chunks.take(0).len() == 0);
    }
}

/// A population after an event that came with `bytes`, whatever happens
/// to the others.
pub open spec fn run_step(run: Run, event: TeeEvent, bytes: Seq<u8>) -> Run {
    let (phase, action) = tee_step(run.phase, event);
    match action {
        TeeAction::Tee | TeeAction::Deliver => Run { phase, delivered: run.delivered + bytes },
        _ => Run { phase, ..run },
    }
}

/// A population after a run of events, from its start.
pub open spec fn run_after(events: Seq<(TeeEvent, Seq<u8>)>) -> Run
    decreases events.len(),
{
    if events.len() == 0 {
        Run { phase: Phase::Teeing, delivered: Seq::empty() }
    } else {
        run_step(run_after(events.drop_last()), events.last().0, events.last().1)
    }
}

/// Whether the population `serial` starts somewhere in a trace.
pub open spec fn has_started(trace: Seq<(u64, Happening)>, serial: u64) -> bool
    decreases trace.len(),
{
    if trace.len() == 0 {
        false
    } else {
        has_started(trace.drop_last(), serial) || (trace.last().0 == serial && trace.last().1
            is Started)
    }
}

/// The events that come to the population `serial` in a trace after it has
/// started, in their order.
pub open spec fn events_of(trace: Seq<(u64, Happening)>, serial: u64) -> Seq<(TeeEvent, Seq<u8>)>
    decreases trace.len(),
{
    if trace.len() == 0 {
        Seq::empty()
    } else {
        let front = trace.drop_last();
        match trace.last().1 {
            Happening::Event(event, bytes) => if trace.last().0 == serial && has_started(
                front,
                serial,
            ) {
                events_of(front, serial).push((event, bytes))
            } else {
                events_of(front, serial)
            },
            Happening::Started => events_of(front, serial),
        }
    }
}

/// A population that has not started has taken no events.
proof fn lemma_no_events_before_start(trace: Seq<(u64, Happening)>, serial: u64)
    requires
        !has_started(trace, serial),
    ensures
        events_of(trace, serial).len() == 0,
    decreases trace.len(),
{
    if trace.len() > 0 {
        lemma_no_events_before_start(trace.drop_last(), serial);
    }
}

/// Populations do not interfere. However the happenings of many
/// populations interleave, each population that has started is where its
/// own events alone have brought it: its phase, and the bytes that its
/// client has been handed, in the order in which they arrived.
pub proof fn lemma_populations_do_not_interfere(
    disk: Map<Seq<char>, Seq<u8>>,
    name: Seq<char>,
    trace: Seq<(u64, Happening)>,
    serial: u64,
)
    ensures
        ({
            let world = world_after(quiet_world(disk), name, trace);
            &&& world.runs.contains_key(serial) == has_started(trace, serial)
            &&& has_started(trace, serial) ==> world.runs[serial] == run_after(
                events_of(trace, serial),
            )
        }),
    decreases trace.len(),
{
    if trace.len() > 0 {
        let front = trace.drop_last();
        lemma_populations_do_not_interfere(disk, name, front, serial);
        let before = world_after(quiet_world(disk), name, front);
        let world = world_step(before, name, trace.last().0, trace.last().1);
        assert(world == world_after(quiet_world(disk), name, trace));
        if !has_started(front, serial) {
            lemma_no_events_before_start(front, serial);
        }
        if trace.last().0 == serial {
            match trace.last().1 {
                Happening::Started => {},
                Happening::Event(event, bytes) => {
                    if has_started(front, serial) {
                        let events = events_of(trace, serial);
                        assert(events.drop_last() == events_of(front, serial));
                        assert(events.last() == (event, bytes));
                        assert(world.runs[serial] == run_step(before.runs[serial], event, bytes));
                    }
                },
            }
        } else {
            assert(world.runs.contains_key(serial) == before.runs.contains_key(serial));
            if before.runs.contains_key(serial) {
                assert(world.runs[serial] == before.runs[serial]);
            }
        }
    }
}

/// A population that has taken the first `n` events of a response that
/// arrives whole is teeing and has handed on the chunks so far; at the end
/// of the response it has handed on every chunk and makes the entry final;
/// once it has taken them all it is promoted.
pub proof fn lemma_run_of_whole_response(chunks: Seq<Seq<u8>>, n: int)
    requires
        0 <= n <= chunks.len() + 2,
    ensures
        n <= chunks.len() ==> run_after(whole_response(chunks).take(n)) == (Run {
            phase: Phase::Teeing,
            delivered: joined(chunks.take(n)),
        }),
        n == chunks.len() + 1 ==> run_after(whole_response(chunks).take(n)) == (Run {
            phase: Phase::Promoting,
            delivered: joined(chunks),
        }),
        n == chunks.len() + 2 ==> run_after(whole_response(chunks).take(n)) == (Run {
            phase: Phase::Promoted,
            delivered: joined(chunks),
        }),
    decreases n,
{
    let events = whole_response(chunks);
    if n == 0 {
        assert(chunks.take(0).len() == 0);
    } else {
        lemma_run_of_whole_response(chunks, n - 1);
        assert(events.take(n).drop_last() == events.take(n - 1));
        assert(events.take(n).last() == events[n - 1]);
        if n <= chunks.len() {
            assert(events[n - 1] == (TeeEvent::Chunk, chunks[n - 1]));
            assert(chunks.take(n).drop_last() == chunks.take(n - 1));
            assert(chunks.take(n).last() == chunks[n - 1]);
        } else if n == chunks.len() + 1 {
            assert(events[n - 1] == (TeeEvent::End, Seq::<u8>::empty()));
            assert(chunks.take(n - 1) == chunks);
        } else {
            assert(events[n - 1] == (TeeEvent::Stored, Seq::<u8>::empty()));
        }
    }
}

/// Whether the response of a population in this phase has come to its end
/// for the client without being cut short.
pub open spec fn has_ended(phase: Phase) -> bool {
    phase == Phase::Promoting || phase == Phase::Promoted || phase == Phase::Finished
}

/// Whether every population that starts in a trace is sent the same
/// object, with nothing failing: the events that come to it are those of a
/// response that arrives whole and is stored, or the first of them, and
/// the chunks of that response make up `object`.
pub open spec fn each_is_sent(trace: Seq<(u64, Happening)>, object: Seq<u8>) -> bool {
    forall|serial: u64| #[trigger]
        has_started(trace, serial) ==> exists|chunks: Seq<Seq<u8>>, n: int|
            0 <= n <= chunks.len() + 2 && joined(chunks) == object && #[trigger] whole_response(
                chunks,
            ).take(n) == events_of(trace, serial)
}

/// Concurrent misses. When any number of populations write one entry at
/// once, each sent the same object and none failing, then in whatever order
/// their chunks arrive: every client whose response has ended has been
/// handed exactly the object; the finished path holds what it held at the
/// start until the first population is promoted, and exactly the object
/// from then on; and no other finished entry changes.
pub proof fn lemma_concurrent_misses_store_the_object(
    disk: Map<Seq<char>, Seq<u8>>,
    name: Seq<char>,
    trace: Seq<(u64, Happening)>,
    object: Seq<u8>,
)
    requires
        each_is_sent(trace, object),
    ensures
        ({
            let world = world_after(quiet_world(disk), name, trace);
            let done = final_path(name);
            &&& forall|serial: u64| #[trigger]
                world.runs.contains_key(serial) && has_ended(world.runs[serial].phase)
                    ==> world.runs[serial].delivered == object
            &&& none_is_promoted(world) ==> entry_at(world.disk, done) == entry_at(disk, done)
            &&& !none_is_promoted(world) ==> entry_at(world.disk, done) == Some(object)
            &&& forall|p: Seq<char>|
                p != done && !is_temp_of(p, name) ==> #[trigger] entry_at(world.disk, p)
                    == entry_at(disk, p)
        }),
{
    let world = world_after(quiet_world(disk), name, trace);
    lemma_cache_stays_sound(disk, name, trace);
    assert forall|serial: u64| #[trigger]
        world.runs.contains_key(serial) && (has_ended(world.runs[serial].phase)
            || world.runs[serial].phase == Phase::Promoted) implies world.runs[serial].delivered
        == object by {
        lemma_populations_do_not_interfere(disk, name, trace, serial);
        assert(has_started(trace, serial));
        let (chunks, n) = choose|chunks: Seq<Seq<u8>>, n: int|
            0 <= n <= chunks.len() + 2 && joined(chunks) == object && #[trigger] whole_response(
                chunks,
            ).take(n) == events_of(trace, serial);
        lemma_run_of_whole_response(chunks, n);
    }
}

} // verus!
