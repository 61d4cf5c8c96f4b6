//! Native microphone capture: the device listing shown to the webview and
//! the decisions taken when a capture is started.

use vstd::prelude::*;
use vstd::string::*;

use crate::decimal::{decimal_chars, push_decimal};
use crate::device_id::{lemma_native_id_round_trip, native_device_id, native_id_chars, native_index_of, parse_native_index};

verus! {

/// One audio input device as listed to the webview.
pub struct ListedInput {
    pub id: String,
    pub name: String,
}

/// Result of starting a capture: the rate at which the device delivers samples.
pub struct StartNativeInputResult {
    pub sample_rate: u32,
}

/// Whether every device in `names` was named.
pub open spec fn all_named(names: Seq<Result<String, String>>) -> bool {
    forall|i: int| 0 <= i < names.len() ==> (#[trigger] names[i]) is Ok
}

/// Whether `i` is the first device whose name could not be read.
pub open spec fn first_unnamed(names: Seq<Result<String, String>>, i: int) -> bool {
    &&& 0 <= i < names.len()
    &&& names[i] is Err
    &&& forall|j: int| 0 <= j < i ==> (#[trigger] names[j]) is Ok
}

/// Builds the listing from what the host reported for each input device, in
/// enumeration order: device `i` is listed as `native:{i}` with its name.
/// The first device whose name could not be read turns the listing into
/// that error; an empty enumeration is an error too.
pub fn listed_audio_inputs(names: &Vec<Result<String, String>>) -> (r: Result<Vec<ListedInput>, String>)
    ensures
        match r {
            Ok(out) => {
                &&& all_named(names@)
                &&& names@.len() > 0
                &&& out@.len() == names@.len()
                &&& forall|i: int|
                    0 <= i < names@.len() ==> {
                        &&& (#[trigger] out@[i]).id@ == native_id_chars(i as nat)
                        &&& native_index_of(out@[i].id@) == Some(i as nat)
                    &&& out@[i].id@.take(7) == seq!['n', 'a', 't', 'i', 'v', 'e', ':']
                    &&& out@[i].id@.skip(7) == decimal_chars(i as nat)
                        &&& out@[i].name@ == names@[i]->Ok_0@
                    }
            },
            Err(e) => {
                ||| exists|i: int| first_unnamed(names@, i) && e@ == names@[i]->Err_0@
                ||| all_named(names@) && names@.len() == 0 && e@ == "no audio input devices found"@
            },
        },
{
    let mut out: Vec<ListedInput> = Vec::new();
    let mut i: usize = 0;
    while i < names.len()
        invariant
            i <= names@.len(),
            out@.len() == i,
            forall|j: int| 0 <= j < i ==> (#[trigger] names@[j]) is Ok,
            forall|j: int|
                0 <= j < i ==> {
                    &&& (#[trigger] out@[j]).id@ == native_id_chars(j as nat)
                    &&& native_index_of(out@[j].id@) == Some(j as nat)
                    &&& out@[j].id@.take(7) == seq!['n', 'a', 't', 'i', 'v', 'e', ':']
                    &&& out@[j].id@.skip(7) == decimal_chars(j as nat)
                    &&& out@[j].name@ == names@[j]->Ok_0@
                },
        decreases names@.len() - i,
    {
        match &names[i] {
            Ok(name) => {
                proof {
                    lemma_native_id_round_trip(i);
                }
                out.push(ListedInput { id: native_device_id(i), name: name.clone() });
            },
            Err(e) => {
                assert(first_unnamed(names@, i as int));
                return Err(e.clone());
            },
        }
        i = i + 1;
    }
    if out.len() == 0 {
        return Err(String::from_str("no audio input devices found"));
    }
    Ok(out)
}

/// The message for a device position that the host does not enumerate.
pub open spec fn device_not_found_message(index: nat) -> Seq<char> {
    "audio input device index "@ + decimal_chars(index) + " not found"@
}

/// Builds `audio input device index {index} not found`.
pub fn device_not_found(index: usize) -> (msg: String)
    ensures
        msg@ == device_not_found_message(index as nat),
{
    let mut msg = String::from_str("audio input device index ");
    push_decimal(&mut msg, index);
    msg.append(" not found");
    msg
}

/// The device position a capture is started on, or the error answered for
/// an id that is not of the form `native:N`.
pub fn capture_index(device_id: &str) -> (r: Result<usize, String>)
    ensures
        match r {
            Ok(i) => native_index_of(device_id@) == Some(i as nat),
            Err(e) => native_index_of(device_id@) is None && e@
                == "invalid device id; expected native:N"@,
        },
{
    match parse_native_index(device_id) {
        Some(i) => Ok(i),
        None => Err(String::from_str("invalid device id; expected native:N")),
    }
}

/// The answer to a start request, given what the capture thread reported
/// (`None` when it ended without reporting): its sample rate once the
/// stream plays, or its error.
pub fn capture_start_outcome(report: Option<Result<u32, String>>) -> (r: Result<StartNativeInputResult, String>)
    ensures
        match report {
            Some(Ok(rate)) => r matches Ok(res) && res.sample_rate == rate,
            Some(Err(e)) => r matches Err(m) && m@ == e@,
            None => r matches Err(m) && m@
                == "native capture thread failed before reporting status (channel closed)"@,
        },
{
    match report {
        Some(Ok(rate)) => Ok(StartNativeInputResult { sample_rate: rate }),
        Some(Err(e)) => Err(e),
        None => Err(String::from_str("native capture thread failed before reporting status (channel closed)")),
    }
}

} // verus!
