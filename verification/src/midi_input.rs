//! Native MIDI input: the port listing shown to the webview, the command
//! arguments, and the registry of running input streams keyed by the
//! webview's logical input id.

use vstd::prelude::*;
use vstd::string::*;

use crate::decimal::{decimal_chars, push_decimal};

verus! {

/// One MIDI input port as listed to the webview.
pub struct ListedMidiInput {
    pub index: usize,
    pub name: String,
}

/// Arguments of the command that stops a MIDI input.
pub struct StopNativeMidiArgs {
    pub input_id: String,
}

/// Arguments of the command that starts a MIDI input.
pub struct StartNativeMidiArgs {
    pub device_index: usize,
    pub input_id: String,
}

/// The name listed for port `index` when the system cannot name it.
pub open spec fn fallback_port_name(index: nat) -> Seq<char> {
    "MIDI input "@ + decimal_chars(index)
}

/// The name listed for port `index`, given what the system reported.
pub open spec fn listed_port_name(reported: Option<String>, index: nat) -> Seq<char> {
    match reported {
        Some(n) => n@,
        None => fallback_port_name(index),
    }
}

/// Builds `MIDI input {index}`.
pub fn fallback_port_label(index: usize) -> (name: String)
    ensures
        name@ == fallback_port_name(index as nat),
{
    let mut name = String::from_str("MIDI input ");
    push_decimal(&mut name, index);
    name
}

/// Lists the ports in enumeration order: port `i` gets index `i` and the
/// name the system reported for it, or `MIDI input {i}` when there was none.
pub fn listed_midi_inputs(names: &Vec<Option<String>>) -> (out: Vec<ListedMidiInput>)
    ensures
        out@.len() == names@.len(),
        forall|i: int|
            0 <= i < names@.len() ==> {
                &&& (#[trigger] out@[i]).index == i
                &&& out@[i].name@ == listed_port_name(names@[i], i as nat)
                &&& (names@[i] matches Some(s) ==> out@[i].name@ == s@)
                &&& (names@[i] is None ==> out@[i].name@ == "MIDI input "@ + decimal_chars(i as nat))
            },
{
    let mut out: Vec<ListedMidiInput> = Vec::new();
    let mut i: usize = 0;
    while i < names.len()
        invariant
            i <= names@.len(),
            out@.len() == i,
            forall|j: int|
                0 <= j < i ==> {
                    &&& (#[trigger] out@[j]).index == j
                    &&& out@[j].name@ == listed_port_name(names@[j], j as nat)
                    &&& (names@[j] matches Some(s) ==> out@[j].name@ == s@)
                    &&& (names@[j] is None ==> out@[j].name@ == "MIDI input "@ + decimal_chars(j as nat))
                },
        decreases names@.len() - i,
    {
        let name = match &names[i] {
            Some(n) => n.clone(),
            None => fallback_port_label(i),
        };
        out.push(ListedMidiInput { index: i, name });
        i = i + 1;
    }
    out
}

/// Whether some entry of `s` has key `k`.
pub open spec fn has_key<T>(s: Seq<(String, T)>, k: Seq<char>) -> bool {
    exists|i: int| 0 <= i < s.len() && (#[trigger] s[i]).0@ == k
}

/// The position of the entry with key `k`.
pub open spec fn key_index<T>(s: Seq<(String, T)>, k: Seq<char>) -> int {
    choose|i: int| 0 <= i < s.len() && (#[trigger] s[i]).0@ == k
}

/// No two entries share a key.
pub open spec fn keys_distinct<T>(s: Seq<(String, T)>) -> bool {
    forall|i: int, j: int|
        0 <= i < s.len() && 0 <= j < s.len() && i != j ==> (#[trigger] s[i]).0@ != (#[trigger] s[j]).0@
}

/// The map from key to stream that the entries spell out.
pub open spec fn entries_map<T>(s: Seq<(String, T)>) -> Map<Seq<char>, T> {
    Map::new(|k: Seq<char>| has_key(s, k), |k: Seq<char>| s[key_index(s, k)].1)
}

/// With distinct keys, the entry at `i` is the one its key finds.
proof fn lemma_key_index<T>(s: Seq<(String, T)>, i: int)
    requires
        keys_distinct(s),
        0 <= i < s.len(),
    ensures
        has_key(s, s[i].0@),
        key_index(s, s[i].0@) == i,
{
    assert(0 <= i < s.len() && s[i].0@ == s[i].0@);
    let j = key_index(s, s[i].0@);
    assert(0 <= j < s.len() && s[j].0@ == s[i].0@);
}

/// Running MIDI input streams, one per logical input id.
pub struct StreamRegistry<T> {
    entries: Vec<(String, T)>,
}

impl<T> StreamRegistry<T> {
    #[verifier::type_invariant]
    spec fn inv(self) -> bool {
        keys_distinct(self.entries@)
    }
}

impl<T> View for StreamRegistry<T> {
    type V = Map<Seq<char>, T>;

    closed spec fn view(&self) -> Map<Seq<char>, T> {
        entries_map(self.entries@)
    }
}

impl<T> StreamRegistry<T> {
    /// A registry with no running stream.
    pub fn new() -> (r: Self)
        ensures
            r@ == Map::<Seq<char>, T>::empty(),
    {
        let r = StreamRegistry { entries: Vec::new() };
        assert(r@ =~= Map::<Seq<char>, T>::empty());
        r
    }

    /// Position of the entry for `key`, if there is one.
    fn find(&self, key: &String) -> (r: Option<usize>)
        ensures
            match r {
                Some(i) => i < self.entries@.len() && self.entries@[i as int].0@ == key@,
                None => !has_key(self.entries@, key@),
            },
    {
        let mut i: usize = 0;
        while i < self.entries.len()
            invariant
                i <= self.entries@.len(),
                forall|j: int| 0 <= j < i ==> (#[trigger] self.entries@[j]).0@ != key@,
            decreases self.entries@.len() - i,
        {
            if self.entries[i].0 == *key {
                return Some(i);
            }
            i = i + 1;
        }
        None
    }

    /// Takes the stream registered under `input_id` out of the registry.
    pub fn remove(&mut self, input_id: &str) -> (r: Option<T>)
        ensures
            final(self)@ == old(self)@.remove(input_id@),
            match r {
                Some(s) => old(self)@.contains_key(input_id@) && s == old(self)@[input_id@],
                None => !old(self)@.contains_key(input_id@),
            },
    {
        proof {
            use_type_invariant(&*self);
        }
        let key = input_id.to_owned();
        match self.find(&key) {
            None => {
                assert(self@ =~= old(self)@.remove(input_id@));
                None
            },
            Some(i) => {
                let ghost s = self.entries@;
                proof {
                    lemma_key_index(s, i as int);
                }
                let mut entries = Vec::new();
                std::mem::swap(&mut entries, &mut self.entries);
                let (_, stream) = entries.remove(i);
                let ghost t = entries@;
                assert(t =~= s.remove(i as int));
                proof {
                    assert(keys_distinct(t)) by {
                        assert forall|a: int, b: int|
                            0 <= a < t.len() && 0 <= b < t.len() && a != b implies (#[trigger] t[a]).0@
                            != (#[trigger] t[b]).0@ by {
                            let a0 = if a < i { a } else { a + 1 };
                            let b0 = if b < i { b } else { b + 1 };
                            assert(t[a] == s[a0]);
                            assert(t[b] == s[b0]);
                        }
                    }
                    assert forall|k: Seq<char>| #[trigger] has_key(t, k) == (has_key(s, k) && k != key@) by {
                        if has_key(t, k) {
                            let a = key_index(t, k);
                            let a0 = if a < i { a } else { a + 1 };
                            assert(s[a0].0@ == k);
                            assert(a0 != i);
                            lemma_key_index(s, a0);
                        }
                        if has_key(s, k) && k != key@ {
                            let a0 = key_index(s, k);
                            assert(a0 != i);
                            let a = if a0 < i { a0 } else { a0 - 1 };
                            assert(t[a].0@ == k);
                        }
                    }
                    assert forall|k: Seq<char>| has_key(t, k) implies #[trigger] t[key_index(t, k)].1
                        == s[key_index(s, k)].1 by {
                        let a = key_index(t, k);
                        let a0 = if a < i { a } else { a + 1 };
                        assert(t[a] == s[a0]);
                        lemma_key_index(s, a0);
                    }
                    assert(entries_map(t) =~= entries_map(s).remove(key@));
                }
                self.entries = entries;
                Some(stream)
            },
        }
    }

    /// Registers `stream` under `input_id`, handing back the stream that
    /// was registered there before, if any.
    pub fn insert(&mut self, input_id: String, stream: T) -> (r: Option<T>)
        ensures
            final(self)@ == old(self)@.insert(input_id@, stream),
            match r {
                Some(s) => old(self)@.contains_key(input_id@) && s == old(self)@[input_id@],
                None => !old(self)@.contains_key(input_id@),
            },
    {
        proof {
            use_type_invariant(&*self);
        }
        let previous = self.remove(input_id.as_str());
        proof {
            use_type_invariant(&*self);
        }
        let ghost s = self.entries@;
        let ghost key = input_id@;
        let mut entries = Vec::new();
        std::mem::swap(&mut entries, &mut self.entries);
        entries.push((input_id, stream));
        let ghost t = entries@;
        proof {
            assert(t =~= s.push((t.last().0, stream)));
            assert(!entries_map(s).dom().contains(key));
            assert(!has_key(s, key));
            assert(keys_distinct(t)) by {
                assert forall|a: int, b: int|
                    0 <= a < t.len() && 0 <= b < t.len() && a != b implies (#[trigger] t[a]).0@
                    != (#[trigger] t[b]).0@ by {
                    if a == s.len() as int {
                        assert(t[b] == s[b]);
                    } else if b == s.len() as int {
                        assert(t[a] == s[a]);
                    } else {
                        assert(t[a] == s[a] && t[b] == s[b]);
                    }
                }
            }
            assert forall|k: Seq<char>| #[trigger] has_key(t, k) == (has_key(s, k) || k == key) by {
                if has_key(s, k) {
                    let a = key_index(s, k);
                    assert(t[a] == s[a]);
                }
                if k == key {
                    assert(t[s.len() as int].0@ == key);
                }
                if has_key(t, k) && k != key {
                    let a = key_index(t, k);
                    assert(a != s.len() as int);
                    assert(t[a] == s[a]);
                }
            }
            assert forall|k: Seq<char>| has_key(t, k) implies #[trigger] t[key_index(t, k)].1 == (if k
                == key {
                stream
            } else {
                s[key_index(s, k)].1
            }) by {
                let a = key_index(t, k);
                if k == key {
                    lemma_key_index(t, s.len() as int);
                } else {
                    assert(a != s.len() as int);
                    assert(t[a] == s[a]);
                    lemma_key_index(s, a);
                }
            }
            assert(entries_map(t) =~= entries_map(s).insert(key, stream));
        }
        self.entries = entries;
        previous
    }
}

/// Starting an input under an id that already runs a stream first takes
/// that stream out, so the new stream is then the only one under the id and
/// the insert finds nothing to displace; streams under other ids are kept.
pub proof fn lemma_restart_replaces<T>(streams: Map<Seq<char>, T>, input_id: Seq<char>, stream: T)
    ensures
        !streams.remove(input_id).contains_key(input_id),
        streams.remove(input_id).insert(input_id, stream) == streams.insert(input_id, stream),
        forall|k: Seq<char>|
            k != input_id ==> (#[trigger] streams.remove(input_id).insert(input_id, stream).contains_key(k)
                <==> streams.contains_key(k)),
{
    assert(streams.remove(input_id).insert(input_id, stream) =~= streams.insert(input_id, stream));
}

/// Stopping an input twice stops nothing the second time.
pub proof fn lemma_stop_idempotent<T>(streams: Map<Seq<char>, T>, input_id: Seq<char>)
    ensures
        !streams.remove(input_id).contains_key(input_id),
        streams.remove(input_id).remove(input_id) == streams.remove(input_id),
{
    assert(streams.remove(input_id).remove(input_id) =~= streams.remove(input_id));
}

/// Every port the system named is listed under exactly that name, at every
/// position; the fallback `MIDI input {i}` (with the shortest decimal
/// spelling of `i`) is listed only for a port the system could not name.
pub proof fn lemma_listed_port_name(reported: Option<String>, index: nat)
    ensures
        reported matches Some(s) ==> listed_port_name(reported, index) == s@,
        reported is None ==> listed_port_name(reported, index) == "MIDI input "@ + decimal_chars(index),
{
}

} // verus!
