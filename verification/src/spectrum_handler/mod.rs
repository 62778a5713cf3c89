use vstd::prelude::*;

use crate::text::{padded_decimal_chars, push_padded_decimal};

pub mod acquisitors;
pub mod time_series;

verus! {

/// Which parts of the time series are drawn, and over how many seconds.
#[derive(Debug, Clone, PartialEq, Eq, Structural)]
pub struct TimeSeriesConfig {
    pub draw_valleys: bool,
    pub draw_valley_means: bool,
    pub draw_peaks: bool,
    pub draw_peak_means: bool,
    pub total_time: i64,
}

/// The state of an acquisitor, without what it holds while in it.
#[derive(Debug, Clone, Copy, PartialEq, Eq, Structural)]
pub enum State {
    Disconnected,
    Connected,
    Reading,
}

/// The kinds of acquisitors.
#[derive(Debug, Clone, Copy, PartialEq, Eq, Structural)]
pub enum AcquisitorSimple {
    FileReader,
    Imon,
    Example,
}

/// The acquisitor to load when the configuration asks for `requested` while `current` is
/// loaded: the requested one when it is another kind, none otherwise.
pub fn acquisitor_to_load(current: AcquisitorSimple, requested: AcquisitorSimple) -> (load:
    Option<AcquisitorSimple>)
    ensures
        load == if current == requested {
            None
        } else {
            Some(requested)
        },
{
    if current == requested {
        None
    } else {
        Some(requested)
    }
}

// Region: frozen and shadow spectra --------------------------------------------

/// Moves the last spectrum to the end of the frozen list; there is no last spectrum afterwards.
/// Returns whether there was one to freeze.
pub fn freeze_spectrum<S>(frozen: &mut Vec<S>, last: &mut Option<S>) -> (froze: bool)
    ensures
        froze == (*old(last) is Some),
        *final(last) is None,
        final(frozen)@ == match *old(last) {
            Some(s) => old(frozen)@.push(s),
            None => old(frozen)@,
        },
{
    match last.take() {
        Some(spectrum) => {
            frozen.push(spectrum);
            true
        },
        None => false,
    }
}

/// Removes the frozen spectrum `id`, when there is one. Returns whether it did.
pub fn delete_frozen_spectrum<S>(frozen: &mut Vec<S>, id: usize) -> (deleted: bool)
    ensures
        deleted == (id < old(frozen)@.len()),
        deleted ==> final(frozen)@ == old(frozen)@.remove(id as int),
        !deleted ==> final(frozen)@ == old(frozen)@,
{
    if id >= frozen.len() {
        return false;
    }
    frozen.remove(id);
    true
}

/// The frozen spectrum `id`, when there is one.
pub fn get_frozen_spectrum<S>(frozen: &Vec<S>, id: usize) -> (spectrum: Option<&S>)
    ensures
        spectrum == if id < frozen@.len() {
            Some(&frozen@[id as int])
        } else {
            None
        },
{
    if id >= frozen.len() {
        return None;
    }
    Some(&frozen[id])
}

pub open spec fn pushed_shadow<S>(shadow: Seq<S>, newest: Option<S>) -> Seq<S> {
    match newest {
        Some(s) => shadow.push(s),
        None => shadow,
    }
}

/// The shadow list after `newest` is appended to it and only the `shadow_length + 1` newest
/// spectra are kept, oldest first.
pub open spec fn updated_shadow<S>(shadow: Seq<S>, newest: Option<S>, shadow_length: nat) -> Seq<S> {
    let pushed = pushed_shadow(shadow, newest);
    if pushed.len() > shadow_length + 1 {
        pushed.skip(pushed.len() - (shadow_length + 1))
    } else {
        pushed
    }
}

/// Appends the newest spectrum to the shadow list and drops the oldest ones beyond
/// `shadow_length + 1` (the newest one is kept but not drawn as a shadow).
pub fn update_shadow_spectra<S>(shadow: &mut Vec<S>, newest: Option<S>, shadow_length: usize)
    requires
        shadow_length < usize::MAX,
    ensures
        final(shadow)@ == updated_shadow(old(shadow)@, newest, shadow_length as nat),
{
    let ghost target = updated_shadow(old(shadow)@, newest, shadow_length as nat);
    let ghost pushed = pushed_shadow(old(shadow)@, newest);
    if let Some(spectrum) = newest {
        shadow.push(spectrum);
    }
    assert(shadow@ == pushed.skip(0));
    let ghost mut removed: int = 0;
    while shadow.len() > shadow_length + 1
        invariant
            shadow_length < usize::MAX,
            0 <= removed <= pushed.len(),
            shadow@ == pushed.skip(removed),
            removed > 0 ==> shadow@.len() >= shadow_length + 1,
            target == updated_shadow(old(shadow)@, newest, shadow_length as nat),
            pushed == pushed_shadow(old(shadow)@, newest),
        decreases shadow@.len(),
    {
        shadow.remove(0);
        proof {
            removed = removed + 1;
            assert(shadow@ =~= pushed.skip(removed));
        }
    }
    assert(shadow@ =~= target);
}

/// Number of shadow spectra that are drawn: all but the newest.
pub fn drawn_shadow_count(shadow_len: usize) -> (count: usize)
    ensures
        count == if shadow_len > 0 {
            shadow_len - 1
        } else {
            0
        },
{
    if shadow_len > 0 {
        shadow_len - 1
    } else {
        0
    }
}

/// The name given to the `id`-th frozen spectrum when it has none, when their information is
/// saved together.
pub fn frozen_spectrum_name(id: usize) -> (name: String)
    ensures
        name@ == "spectrum"@ + padded_decimal_chars(id as nat, 3),
{
    let mut name = "spectrum".to_owned();
    push_padded_decimal(&mut name, id as u64, 3);
    name
}

// Region: laws of the spectrum lists -------------------------------------------------------

/// Freezing a spectrum and then deleting the last frozen one gives back the frozen list as it
/// was.
pub proof fn law_freeze_then_delete_last<S>(frozen: Seq<S>, spectrum: S)
    ensures
        frozen.push(spectrum).len() == frozen.len() + 1,
        frozen.push(spectrum).remove(frozen.len() as int) == frozen,
{
    assert(frozen.push(spectrum).remove(frozen.len() as int) =~= frozen);
}

/// After an update the shadow list holds at most `shadow_length + 1` spectra: the newest ones
/// of the list with the new spectrum appended, oldest first, so the new spectrum is the last.
pub proof fn law_shadow_keeps_newest<S>(shadow: Seq<S>, newest: Option<S>, shadow_length: nat)
    ensures
        ({
            let pushed = pushed_shadow(shadow, newest);
            let updated = updated_shadow(shadow, newest, shadow_length);
            &&& updated.len() <= shadow_length + 1
            &&& updated.len() == if pushed.len() > shadow_length + 1 {
                shadow_length + 1
            } else {
                pushed.len()
            }
            &&& forall|i: int|
                0 <= i < updated.len() ==> #[trigger] updated[i] == pushed[pushed.len()
                    - updated.len() + i]
            &&& newest is Some ==> updated.last() == newest->0
        }),
{
}

} // verus!
