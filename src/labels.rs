use vstd::prelude::*;

use crate::session::{CurrentScreen, CurrentlyEditing};

verus! {

/// Width that a key is padded to in the list of pairs.
pub const KEY_COLUMN_WIDTH: usize = 25;

/// The name of the current mode, shown in the footer.
pub fn mode_label(screen: CurrentScreen) -> (r: &'static str)
    ensures
        screen == CurrentScreen::Main ==> r == "Normal Mode",
        screen == CurrentScreen::Editing ==> r == "Editing Mode",
        screen == CurrentScreen::Exiting ==> r == "Exiting",
{
    match screen {
        CurrentScreen::Main => "Normal Mode",
        CurrentScreen::Editing => "Editing Mode",
        CurrentScreen::Exiting => "Exiting",
    }
}

/// What is being edited, shown beside the mode.
pub fn editing_label(editing: Option<CurrentlyEditing>) -> (r: &'static str)
    ensures
        editing == Some(CurrentlyEditing::Key) ==> r == "Editing Json Key",
        editing == Some(CurrentlyEditing::Value) ==> r == "Editing Json Value",
        editing.is_none() ==> r == "Not Editing Anything",
{
    match editing {
        Some(CurrentlyEditing::Key) => "Editing Json Key",
        Some(CurrentlyEditing::Value) => "Editing Json Value",
        None => "Not Editing Anything",
    }
}

/// The keys available on a screen.
pub fn keys_hint(screen: CurrentScreen) -> (r: &'static str)
    ensures
        screen == CurrentScreen::Editing ==> r
            == "(ESC) to cancel / (Tab) to switch boxes / (ENTER) to complete",
        screen != CurrentScreen::Editing ==> r == "(q) to quit / (e) to make new pair",
{
    match screen {
        CurrentScreen::Editing => "(ESC) to cancel / (Tab) to switch boxes / (ENTER) to complete",
        _ => "(q) to quit / (e) to make new pair",
    }
}

/// `s` padded on the right with spaces to `width` characters (unchanged when
/// it is already as long).
pub open spec fn pad_right(s: Seq<char>, width: nat) -> Seq<char> {
    if s.len() >= width {
        s
    } else {
        s + Seq::new((width - s.len()) as nat, |i: int| ' ')
    }
}

/// One line of the list of pairs: the key padded to the key column, then
/// `" : "`, then the value.
pub open spec fn pair_line_spec(k: Seq<char>, v: Seq<char>) -> Seq<char> {
    pad_right(k, KEY_COLUMN_WIDTH as nat) + seq![' ', ':', ' '] + v
}

/// Renders one pair as a line of the list.
pub fn pair_line(k: &Vec<char>, v: &Vec<char>) -> (r: Vec<char>)
    ensures
        r@ == pair_line_spec(k@, v@),
{
    let mut out: Vec<char> = Vec::new();
    let mut i: usize = 0;
    while i < k.len()
        invariant
            i <= k.len(),
            out@ == k@.subrange(0, i as int),
        decreases k.len() - i,
    {
        out.push(k[i]);
        i = i + 1;
    }
    assert(out@ =~= k@);
    while out.len() < KEY_COLUMN_WIDTH
        invariant
            k@.len() <= KEY_COLUMN_WIDTH ==> out@.len() <= KEY_COLUMN_WIDTH,
            k@.len() >= KEY_COLUMN_WIDTH ==> out@ == k@,
            out@.len() >= k@.len(),
            out@.subrange(0, k@.len() as int) == k@,
            forall|j: int| k@.len() <= j < out@.len() ==> out@[j] == ' ',
        decreases KEY_COLUMN_WIDTH - out@.len(),
    {
        let ghost before = out@;
        out.push(' ');
        assert(out@.subrange(0, k@.len() as int) =~= before.subrange(0, k@.len() as int));
    }
    proof {
        if k@.len() < KEY_COLUMN_WIDTH {
            let p = pad_right(k@, KEY_COLUMN_WIDTH as nat);
            assert(p.len() == out@.len());
            assert forall|j: int| 0 <= j < p.len() implies p[j] == out@[j] by {
                if j < k@.len() {
                    assert(out@[j] == out@.subrange(0, k@.len() as int)[j]);
                }
            }
            assert(out@ =~= p);
        }
    }
    out.push(' ');
    out.push(':');
    out.push(' ');
    let mut j: usize = 0;
    let ghost head = out@;
    while j < v.len()
        invariant
            j <= v.len(),
            out@ == head + v@.subrange(0, j as int),
        decreases v.len() - j,
    {
        out.push(v[j]);
        j = j + 1;
    }
    assert(out@ =~= pair_line_spec(k@, v@));
    out
}

/// The share of each side around a centred part of `percent` percent.
pub fn side_percent(percent: u16) -> (r: u16)
    requires
        percent <= 100,
    ensures
        r == (100 - percent) / 2,
{
    (100 - percent) / 2
}

} // verus!
