//! Native synth engines: the table of live engines keyed by handle, and the
//! decision of what a note event does to an engine's voice.

use vstd::prelude::*;
use std::collections::HashMap;

verus! {

broadcast use vstd::std_specs::hash::group_hash_axioms;

/// Result of creating an engine: the handle that names it from now on.
pub struct CreateSynthEngineResult {
    pub handle_id: u64,
}

/// A note event sent by the webview to an engine.
pub struct SynthNoteEvent {
    pub kind: String,
    pub note: Option<i32>,
    pub velocity: Option<i32>,
    pub controller: Option<i32>,
    pub value: Option<i32>,
}

/// What a note event does to a voice.
#[derive(Debug, Clone, Copy, PartialEq, Eq, Structural)]
pub enum NoteAction {
    /// Sound `note` (a MIDI note number) with MIDI velocity `velocity` (1..=127), gate open.
    NoteOn { note: i32, velocity: i32 },
    /// Release the held note; pitch and level stay as they are.
    NoteOff,
    /// Leave the voice unchanged.
    Ignored,
}

/// The note played when a note-on names none.
pub const DEFAULT_NOTE: i32 = 60;

/// The velocity used when a note-on gives none.
pub const DEFAULT_VELOCITY: i32 = 100;

/// `v` limited to `lo..=hi`.
pub open spec fn clamp_i32(v: i32, lo: i32, hi: i32) -> i32 {
    if v < lo {
        lo
    } else if v > hi {
        hi
    } else {
        v
    }
}

/// The action of an event of kind `kind`: `noteOn` plays the given note
/// (60 by default) at the given velocity (100 by default) limited to
/// `1..=127`; `noteOff` releases the held note; any other kind does nothing.
pub open spec fn note_action_of(kind: Seq<char>, note: Option<i32>, velocity: Option<i32>) -> NoteAction {
    if kind == "noteOn"@ {
        NoteAction::NoteOn {
            note: match note {
                Some(n) => n,
                None => DEFAULT_NOTE,
            },
            velocity: clamp_i32(
                match velocity {
                    Some(v) => v,
                    None => DEFAULT_VELOCITY,
                },
                1,
                127,
            ),
        }
    } else if kind == "noteOff"@ {
        NoteAction::NoteOff
    } else {
        NoteAction::Ignored
    }
}

/// Decides what `event` does to the voice of its engine.
pub fn note_action(event: &SynthNoteEvent) -> (a: NoteAction)
    ensures
        a == note_action_of(event.kind@, event.note, event.velocity),
        event.kind@ == "noteOn"@ ==> {
            &&& a matches NoteAction::NoteOn { note, velocity }
            &&& (event.note matches Some(n) ==> note == n)
            &&& (event.note is None ==> note == 60)
            &&& (event.velocity matches Some(v) ==> (1 <= v <= 127 ==> velocity == v) && (v < 1
                ==> velocity == 1) && (v > 127 ==> velocity == 127))
            &&& (event.velocity is None ==> velocity == 100)
        },
        event.kind@ == "noteOff"@ ==> a == NoteAction::NoteOff,
        event.kind@ != "noteOn"@ && event.kind@ != "noteOff"@ ==> a == NoteAction::Ignored,
{
    proof {
        lemma_note_kinds_differ();
    }
    if event.kind == "noteOn".to_owned() {
        let note = match event.note {
            Some(n) => n,
            None => DEFAULT_NOTE,
        };
        let raw = match event.velocity {
            Some(v) => v,
            None => DEFAULT_VELOCITY,
        };
        let velocity = if raw < 1 {
            1
        } else if raw > 127 {
            127
        } else {
            raw
        };
        NoteAction::NoteOn { note, velocity }
    } else if event.kind == "noteOff".to_owned() {
        NoteAction::NoteOff
    } else {
        NoteAction::Ignored
    }
}

/// Whether every live handle in `engines` was handed out before `next`:
/// it lies in `1..next`.
pub open spec fn handles_below<T>(engines: Map<u64, T>, next: u64) -> bool {
    forall|h: u64| #[trigger] engines.contains_key(h) ==> 1 <= h < next
}

/// Live engines by handle, and the handle the next engine will get.
pub struct EngineTable<T> {
    next_id: u64,
    engines: HashMap<u64, T>,
}

impl<T> EngineTable<T> {
    #[verifier::type_invariant]
    spec fn inv(self) -> bool {
        &&& 1 <= self.next_id
        &&& handles_below(self.engines@, self.next_id)
    }
}

impl<T> EngineTable<T> {
    /// The handle the next created engine gets.
    pub closed spec fn next_handle(&self) -> u64 {
        self.next_id
    }

    /// The live engines by handle.
    pub closed spec fn engines(&self) -> Map<u64, T> {
        self.engines@
    }

    /// An empty table whose first handle is 1.
    pub fn new() -> (t: Self)
        ensures
            t.next_handle() == 1,
            t.engines() == Map::<u64, T>::empty(),
            handles_below(t.engines(), t.next_handle()),
    {
        EngineTable { next_id: 1, engines: HashMap::new() }
    }

    /// The handle the next created engine gets.
    pub fn next_handle_value(&self) -> (id: u64)
        ensures
            id == self.next_handle(),
            1 <= id,
            handles_below(self.engines(), id),
    {
        proof {
            use_type_invariant(self);
        }
        self.next_id
    }

    /// Registers `engine` under the next handle and returns that handle,
    /// which no live engine holds.
    pub fn create(&mut self, engine: T) -> (id: u64)
        requires
            old(self).next_handle() < u64::MAX,
        ensures
            id == old(self).next_handle(),
            1 <= id,
            !old(self).engines().contains_key(id),
            final(self).next_handle() == id + 1,
            final(self).engines() == old(self).engines().insert(id, engine),
            handles_below(final(self).engines(), final(self).next_handle()),
    {
        proof {
            use_type_invariant(&*self);
        }
        let id = self.next_id;
        let mut engines = HashMap::new();
        std::mem::swap(&mut engines, &mut self.engines);
        engines.insert(id, engine);
        assert(handles_below(engines@, (id + 1) as u64));
        *self = EngineTable { next_id: id + 1, engines };
        id
    }

    /// Takes the engine with handle `id` out of the table.
    pub fn release(&mut self, id: u64) -> (r: Option<T>)
        ensures
            final(self).next_handle() == old(self).next_handle(),
            final(self).engines() == old(self).engines().remove(id),
            handles_below(final(self).engines(), final(self).next_handle()),
            match r {
                Some(e) => old(self).engines().contains_key(id) && e == old(self).engines()[id],
                None => !old(self).engines().contains_key(id),
            },
    {
        proof {
            use_type_invariant(&*self);
        }
        let next_id = self.next_id;
        let mut engines = HashMap::new();
        std::mem::swap(&mut engines, &mut self.engines);
        let r = engines.remove(&id);
        assert(handles_below(engines@, next_id));
        *self = EngineTable { next_id, engines };
        r
    }

    /// The engine with handle `id`, if it is live.
    pub fn get(&self, id: u64) -> (r: Option<&T>)
        ensures
            match r {
                Some(e) => self.engines().contains_key(id) && *e == self.engines()[id],
                None => !self.engines().contains_key(id),
            },
    {
        self.engines.get(&id)
    }
}

/// A note-on always plays at a velocity in `1..=127`, whatever the event carried.
pub proof fn lemma_note_on_velocity_in_range(kind: Seq<char>, note: Option<i32>, velocity: Option<i32>)
    ensures
        note_action_of(kind, note, velocity) matches NoteAction::NoteOn { velocity: v, .. } ==> 1 <= v
            <= 127,
{
}

/// The two kinds of note event are different words.
proof fn lemma_note_kinds_differ()
    ensures
        "noteOn"@ != "noteOff"@,
{
    reveal_strlit("noteOn");
    reveal_strlit("noteOff");
    assert("noteOn"@.len() != "noteOff"@.len());
}

/// A note-on plays exactly the note it names, for every note number and
/// whatever velocity it carries; only a note-on that names no note plays
/// note 60.
pub proof fn lemma_note_on_plays_named_note(n: i32, velocity: Option<i32>)
    ensures
        note_action_of("noteOn"@, Some(n), velocity) matches NoteAction::NoteOn { note, .. } && note
            == n,
        note_action_of("noteOn"@, None, velocity) matches NoteAction::NoteOn { note, .. } && note
            == 60,
{
}

/// A note-on plays at the velocity it carries when that lies in `1..=127`,
/// at 1 or 127 when it lies below or above, and at 100 when it carries
/// none, whatever note it names.
pub proof fn lemma_note_on_velocity(note: Option<i32>, v: i32)
    ensures
        note_action_of("noteOn"@, note, Some(v)) matches NoteAction::NoteOn { velocity, .. } && (1 <= v
            <= 127 ==> velocity == v) && (v < 1 ==> velocity == 1) && (v > 127 ==> velocity == 127),
        note_action_of("noteOn"@, note, None) matches NoteAction::NoteOn { velocity, .. } && velocity
            == 100,
{
}

/// A note-off releases the held note whatever note and velocity it carries,
/// and an event of any kind other than `noteOn` and `noteOff` changes nothing.
pub proof fn lemma_note_off_releases(kind: Seq<char>, note: Option<i32>, velocity: Option<i32>)
    ensures
        note_action_of("noteOff"@, note, velocity) == NoteAction::NoteOff,
        kind != "noteOn"@ && kind != "noteOff"@ ==> note_action_of(kind, note, velocity)
            == NoteAction::Ignored,
{
    lemma_note_kinds_differ();
}

/// Creating an engine and then releasing its handle gives back the table
/// of live engines it started from (the handle counter stays advanced), and
/// releasing the same handle again changes nothing.
pub proof fn lemma_create_then_release<T>(engines: Map<u64, T>, next: u64, engine: T)
    requires
        handles_below(engines, next),
    ensures
        !engines.contains_key(next),
        engines.insert(next, engine).contains_key(next),
        engines.insert(next, engine)[next] == engine,
        engines.insert(next, engine).remove(next) == engines,
        engines.insert(next, engine).remove(next).remove(next) == engines,
{
    assert(engines.insert(next, engine).remove(next) =~= engines);
}

/// Handles are handed out in increasing order, so two engines created one
/// after the other get different handles, and neither collides with an
/// engine that was live before them.
pub proof fn lemma_consecutive_handles_fresh<T>(engines: Map<u64, T>, next: u64, engine: T)
    requires
        1 <= next < u64::MAX,
        handles_below(engines, next),
    ensures
        !engines.contains_key(next),
        handles_below(engines.insert(next, engine), (next + 1) as u64),
        !engines.insert(next, engine).contains_key((next + 1) as u64),
{
    assert forall|h: u64| #[trigger] engines.insert(next, engine).contains_key(h) implies 1 <= h < next + 1 by {
        if h != next {
            assert(engines.contains_key(h));
        }
    }
}

} // verus!
