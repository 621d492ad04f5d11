use vstd::prelude::*;

use crate::json::json_object;
use crate::store::{as_map, copy_chars, store_insert, Entry, PairStore};

verus! {

/// The top-level mode of a session.
#[derive(Clone, Copy, Debug, PartialEq, Eq, Structural)]
pub enum CurrentScreen {
    Main,
    Editing,
    Exiting,
}

/// Which input buffer receives typed characters while editing.
#[derive(Clone, Copy, Debug, PartialEq, Eq, Structural)]
pub enum CurrentlyEditing {
    Key,
    Value,
}

/// The identity of a key in a key event.
#[derive(Clone, Copy, Debug, PartialEq, Eq, Structural)]
pub enum KeyCode {
    Char(char),
    Enter,
    Backspace,
    Esc,
    Tab,
    /// Any key the session does not react to.
    Other,
}

/// The phase of a physical key interaction.
#[derive(Clone, Copy, Debug, PartialEq, Eq, Structural)]
pub enum KeyEventKind {
    Press,
    Repeat,
    Release,
}

/// One key event handed to the session.
#[derive(Clone, Copy, Debug, PartialEq, Eq, Structural)]
pub struct KeyEvent {
    pub code: KeyCode,
    pub kind: KeyEventKind,
}

/// What the driving loop does after an event.
#[derive(Clone, Copy, Debug, PartialEq, Eq, Structural)]
pub enum LoopControl {
    Continue,
    ExitWithOutput,
    ExitWithoutOutput,
}

/// The abstract state of a session.
pub struct AppModel {
    pub screen: CurrentScreen,
    pub editing: Option<CurrentlyEditing>,
    pub key: Seq<char>,
    pub value: Seq<char>,
    pub pairs: Seq<Entry>,
}

/// The model with another screen and focus, buffers and pairs kept.
pub open spec fn with_mode(
    m: AppModel,
    screen: CurrentScreen,
    editing: Option<CurrentlyEditing>,
) -> AppModel {
    AppModel { screen, editing, key: m.key, value: m.value, pairs: m.pairs }
}

/// The model with other buffers, everything else kept.
pub open spec fn with_buffers(m: AppModel, key: Seq<char>, value: Seq<char>) -> AppModel {
    AppModel { screen: m.screen, editing: m.editing, key, value, pairs: m.pairs }
}

/// A buffer with its last character removed, unchanged when empty.
pub open spec fn pop_last(s: Seq<char>) -> Seq<char> {
    if s.len() == 0 {
        s
    } else {
        s.drop_last()
    }
}

/// Committing: the buffers go into the pairs, are cleared, and the session
/// returns to the main screen.
pub open spec fn commit_model(m: AppModel) -> AppModel {
    AppModel {
        screen: CurrentScreen::Main,
        editing: None,
        key: Seq::empty(),
        value: Seq::empty(),
        pairs: store_insert(m.pairs, m.key, m.value),
    }
}

/// The reaction of the editing screen to a pressed key.
pub open spec fn editing_step(m: AppModel, code: KeyCode) -> AppModel {
    match code {
        KeyCode::Enter => match m.editing {
            Some(CurrentlyEditing::Key) => with_mode(
                m,
                CurrentScreen::Editing,
                Some(CurrentlyEditing::Value),
            ),
            Some(CurrentlyEditing::Value) => commit_model(m),
            None => m,
        },
        KeyCode::Backspace => match m.editing {
            Some(CurrentlyEditing::Key) => with_buffers(m, pop_last(m.key), m.value),
            Some(CurrentlyEditing::Value) => with_buffers(m, m.key, pop_last(m.value)),
            None => m,
        },
        KeyCode::Esc => with_mode(m, CurrentScreen::Main, None),
        KeyCode::Tab => match m.editing {
            Some(CurrentlyEditing::Key) => with_mode(m, m.screen, Some(CurrentlyEditing::Value)),
            Some(CurrentlyEditing::Value) => with_mode(m, m.screen, Some(CurrentlyEditing::Key)),
            None => m,
        },
        KeyCode::Char(c) => match m.editing {
            Some(CurrentlyEditing::Key) => with_buffers(m, m.key.push(c), m.value),
            Some(CurrentlyEditing::Value) => with_buffers(m, m.key, m.value.push(c)),
            None => m,
        },
        _ => m,
    }
}

/// The transition function: next state and loop control for one event.
/// Only pressed keys act; any other event leaves the state as it is.
pub open spec fn step(m: AppModel, e: KeyEvent) -> (AppModel, LoopControl) {
    if e.kind != KeyEventKind::Press {
        (m, LoopControl::Continue)
    } else {
        match m.screen {
            CurrentScreen::Main => if e.code == KeyCode::Char('e') {
                (
                    with_mode(m, CurrentScreen::Editing, Some(CurrentlyEditing::Key)),
                    LoopControl::Continue,
                )
            } else if e.code == KeyCode::Char('q') {
                (with_mode(m, CurrentScreen::Exiting, None), LoopControl::Continue)
            } else {
                (m, LoopControl::Continue)
            },
            CurrentScreen::Exiting => if e.code == KeyCode::Char('y') {
                (m, LoopControl::ExitWithOutput)
            } else if e.code == KeyCode::Char('n') || e.code == KeyCode::Char('q') {
                (m, LoopControl::ExitWithoutOutput)
            } else {
                (m, LoopControl::Continue)
            },
            CurrentScreen::Editing => (editing_step(m, e.code), LoopControl::Continue),
        }
    }
}

/// Feeds `events` one by one, stopping at the first event that ends the loop.
/// Gives the state reached and the last loop control (`Continue` when the
/// events ran out).
pub open spec fn run(m: AppModel, events: Seq<KeyEvent>) -> (AppModel, LoopControl)
    decreases events.len(),
{
    if events.len() == 0 {
        (m, LoopControl::Continue)
    } else {
        let (next, ctl) = step(m, events[0]);
        if ctl == LoopControl::Continue {
            run(next, events.drop_first())
        } else {
            (next, ctl)
        }
    }
}

/// The session's invariant on a model: a focus exactly while editing.
pub open spec fn model_wf(m: AppModel) -> bool {
    &&& crate::store::keys_unique(m.pairs)
    &&& (m.screen == CurrentScreen::Editing) == m.editing.is_some()
}

/// Each event keeps the invariant.
pub proof fn lemma_step_keeps_wf(m: AppModel, e: KeyEvent)
    requires
        model_wf(m),
    ensures
        model_wf(step(m, e).0),
{
    if e.kind == KeyEventKind::Press && m.screen == CurrentScreen::Editing && e.code
        == KeyCode::Enter && m.editing == Some(CurrentlyEditing::Value) {
        crate::store::lemma_insert_keeps_unique(m.pairs, m.key, m.value);
    }
}

/// A pressed key.
pub open spec fn pressed(code: KeyCode) -> KeyEvent {
    KeyEvent { code, kind: KeyEventKind::Press }
}

/// Every event of `evs` is a pressed character key.
pub open spec fn all_char_presses(evs: Seq<KeyEvent>) -> bool {
    forall|i: int|
        0 <= i < evs.len() ==> (#[trigger] evs[i]).kind == KeyEventKind::Press && evs[i].code is Char
}

/// The characters that the character keys of `evs` carry, in order.
pub open spec fn chars_typed(evs: Seq<KeyEvent>) -> Seq<char>
    decreases evs.len(),
{
    if evs.len() == 0 {
        Seq::empty()
    } else {
        match evs[0].code {
            KeyCode::Char(c) => seq![c] + chars_typed(evs.drop_first()),
            _ => chars_typed(evs.drop_first()),
        }
    }
}

/// Typing characters while the key buffer has the focus appends them to the
/// key buffer in order; nothing else changes and the loop goes on.
pub proof fn lemma_typing_appends_to_key(m: AppModel, evs: Seq<KeyEvent>)
    requires
        m.screen == CurrentScreen::Editing,
        m.editing == Some(CurrentlyEditing::Key),
        all_char_presses(evs),
    ensures
        run(m, evs) == (with_buffers(m, m.key + chars_typed(evs), m.value), LoopControl::Continue),
    decreases evs.len(),
{
    if evs.len() == 0 {
        assert(m.key + chars_typed(evs) =~= m.key);
    } else {
        let e = evs[0];
        assert(e.kind == KeyEventKind::Press && e.code is Char);
        let c = e.code->Char_0;
        let m1 = with_buffers(m, m.key.push(c), m.value);
        assert(step(m, e) == (m1, LoopControl::Continue));
        let rest = evs.drop_first();
        assert(all_char_presses(rest)) by {
            assert forall|i: int| 0 <= i < rest.len() implies (#[trigger] rest[i]).kind
                == KeyEventKind::Press && rest[i].code is Char by {
                assert(rest[i] == evs[i + 1]);
            }
        }
        lemma_typing_appends_to_key(m1, rest);
        assert(m1.key + chars_typed(rest) =~= m.key + chars_typed(evs));
    }
}

/// Backspace while the key buffer has the focus removes exactly its last
/// character, and does nothing on an empty buffer.
pub proof fn lemma_backspace_on_key(m: AppModel)
    requires
        m.screen == CurrentScreen::Editing,
        m.editing == Some(CurrentlyEditing::Key),
    ensures
        step(m, pressed(KeyCode::Backspace)).1 == LoopControl::Continue,
        m.key.len() > 0 ==> step(m, pressed(KeyCode::Backspace)).0 == with_buffers(
            m,
            m.key.subrange(0, m.key.len() - 1),
            m.value,
        ),
        m.key.len() == 0 ==> step(m, pressed(KeyCode::Backspace)).0 == m,
{
}

/// Committing the same key twice, first with `v1` and then with `v2`,
/// leaves one entry for it holding `v2`: the pairs are those of committing
/// `v2` alone.
pub proof fn lemma_commit_twice_overwrites(m: AppModel, k: Seq<char>, v1: Seq<char>, v2: Seq<char>)
    requires
        model_wf(m),
    ensures
        commit_model(with_buffers(commit_model(with_buffers(m, k, v1)), k, v2)).pairs
            == commit_model(with_buffers(m, k, v2)).pairs,
        as_map(commit_model(with_buffers(commit_model(with_buffers(m, k, v1)), k, v2)).pairs)
            == as_map(m.pairs).insert(k, v2),
{
    crate::store::lemma_insert_overwrites(m.pairs, k, v1, v2);
}

/// Events other than presses change nothing, whatever the state.
pub proof fn lemma_non_press_ignored(m: AppModel, e: KeyEvent)
    requires
        e.kind != KeyEventKind::Press,
    ensures
        step(m, e) == (m, LoopControl::Continue),
{
}

/// The state of one interactive session.
pub struct App {
    pairs: PairStore,
    key_input: Vec<char>,
    value_input: Vec<char>,
    current_screen: CurrentScreen,
    currently_editing: Option<CurrentlyEditing>,
}

impl App {
    /// The abstract state.
    pub closed spec fn view(&self) -> AppModel {
        AppModel {
            screen: self.current_screen,
            editing: self.currently_editing,
            key: self.key_input@,
            value: self.value_input@,
            pairs: self.pairs.view(),
        }
    }

    /// The session's invariant.
    pub closed spec fn wf(&self) -> bool {
        self.pairs.wf() && model_wf(self.view())
    }

    /// A fresh session: main screen, no focus, empty buffers and pairs.
    pub fn init() -> (r: App)
        ensures
            r.wf(),
            r.view() == (AppModel {
                screen: CurrentScreen::Main,
                editing: None,
                key: Seq::empty(),
                value: Seq::empty(),
                pairs: Seq::empty(),
            }),
    {
        let r = App {
            pairs: PairStore::new(),
            key_input: Vec::new(),
            value_input: Vec::new(),
            current_screen: CurrentScreen::Main,
            currently_editing: None,
        };
        assert(r.key_input@ =~= Seq::<char>::empty());
        assert(r.value_input@ =~= Seq::<char>::empty());
        r
    }

    /// The current screen.
    pub fn current_screen(&self) -> (r: CurrentScreen)
        ensures
            r == self.view().screen,
    {
        self.current_screen
    }

    /// The buffer receiving typed characters, if editing.
    pub fn currently_editing(&self) -> (r: Option<CurrentlyEditing>)
        ensures
            r == self.view().editing,
    {
        self.currently_editing
    }

    /// The key buffer.
    pub fn key_input(&self) -> (r: &Vec<char>)
        ensures
            r@ == self.view().key,
    {
        &self.key_input
    }

    /// The value buffer.
    pub fn value_input(&self) -> (r: &Vec<char>)
        ensures
            r@ == self.view().value,
    {
        &self.value_input
    }

    /// The committed pairs.
    pub fn pairs(&self) -> (r: &PairStore)
        requires
            self.wf(),
        ensures
            r.wf(),
            r.view() == self.view().pairs,
    {
        &self.pairs
    }

    /// The committed pairs as a compact JSON object, in insertion order.
    pub fn to_json(&self) -> (r: String)
        ensures
            r@ == json_object(self.view().pairs),
    {
        self.pairs.to_json()
    }

    /// Starts editing a new pair, focus on the key buffer. The buffers keep
    /// whatever they hold.
    pub fn begin_edit(&mut self)
        requires
            old(self).wf(),
        ensures
            final(self).wf(),
            final(self).view() == with_mode(
                old(self).view(),
                CurrentScreen::Editing,
                Some(CurrentlyEditing::Key),
            ),
    {
        self.current_screen = CurrentScreen::Editing;
        self.currently_editing = Some(CurrentlyEditing::Key);
    }

    /// Leaves editing for the main screen. The buffers keep their contents.
    pub fn cancel_edit(&mut self)
        requires
            old(self).wf(),
        ensures
            final(self).wf(),
            final(self).view() == with_mode(old(self).view(), CurrentScreen::Main, None),
    {
        self.current_screen = CurrentScreen::Main;
        self.currently_editing = None;
    }

    /// Appends `c` to the focused buffer; nothing without a focus.
    pub fn append_char(&mut self, c: char)
        requires
            old(self).wf(),
        ensures
            final(self).wf(),
            final(self).view() == editing_step(old(self).view(), KeyCode::Char(c)),
    {
        match self.currently_editing {
            Some(CurrentlyEditing::Key) => self.key_input.push(c),
            Some(CurrentlyEditing::Value) => self.value_input.push(c),
            None => {},
        }
    }

    /// Removes the last character of the focused buffer; nothing on an empty
    /// buffer or without a focus.
    pub fn backspace(&mut self)
        requires
            old(self).wf(),
        ensures
            final(self).wf(),
            final(self).view() == editing_step(old(self).view(), KeyCode::Backspace),
    {
        match self.currently_editing {
            Some(CurrentlyEditing::Key) => {
                self.key_input.pop();
            },
            Some(CurrentlyEditing::Value) => {
                self.value_input.pop();
            },
            None => {},
        }
        assert(self.key_input@ =~= self.view().key);
    }

    /// Switches the focus between the two buffers; nothing without a focus.
    pub fn toggle_editing(&mut self)
        requires
            old(self).wf(),
        ensures
            final(self).wf(),
            final(self).view() == editing_step(old(self).view(), KeyCode::Tab),
    {
        match self.currently_editing {
            Some(CurrentlyEditing::Key) => {
                self.currently_editing = Some(CurrentlyEditing::Value);
            },
            Some(CurrentlyEditing::Value) => {
                self.currently_editing = Some(CurrentlyEditing::Key);
            },
            None => {},
        }
    }

    /// Stores the buffers as a pair (overwriting an equal key), clears both
    /// buffers and the focus, and returns to the main screen.
    pub fn save_key_value(&mut self)
        requires
            old(self).wf(),
        ensures
            final(self).wf(),
            final(self).view() == commit_model(old(self).view()),
            as_map(final(self).view().pairs) == as_map(old(self).view().pairs).insert(
                old(self).view().key,
                old(self).view().value,
            ),
    {
        proof {
            crate::store::lemma_insert_keeps_unique(self.pairs.view(), self.key_input@, self.value_input@);
            crate::store::lemma_insert_map(self.pairs.view(), self.key_input@, self.value_input@);
        }
        let k = copy_chars(&self.key_input);
        let v = copy_chars(&self.value_input);
        self.pairs.insert(k, v);
        self.key_input = Vec::new();
        self.value_input = Vec::new();
        self.currently_editing = None;
        self.current_screen = CurrentScreen::Main;
        assert(self.view() =~= commit_model(old(self).view()));
    }

    /// Handles one key event: updates the state by the transition function
    /// and says whether the driving loop goes on.
    pub fn handle_key(&mut self, e: KeyEvent) -> (r: LoopControl)
        requires
            old(self).wf(),
        ensures
            final(self).wf(),
            (final(self).view(), r) == step(old(self).view(), e),
    {
        proof {
            lemma_step_keeps_wf(self.view(), e);
        }
        if e.kind != KeyEventKind::Press {
            return LoopControl::Continue;
        }
        match self.current_screen {
            CurrentScreen::Main => match e.code {
                KeyCode::Char('e') => {
                    self.begin_edit();
                    LoopControl::Continue
                },
                KeyCode::Char('q') => {
                    self.current_screen = CurrentScreen::Exiting;
                    LoopControl::Continue
                },
                _ => LoopControl::Continue,
            },
            CurrentScreen::Exiting => match e.code {
                KeyCode::Char('y') => LoopControl::ExitWithOutput,
                KeyCode::Char('n') | KeyCode::Char('q') => LoopControl::ExitWithoutOutput,
                _ => LoopControl::Continue,
            },
            CurrentScreen::Editing => {
                match e.code {
                    KeyCode::Enter => match self.currently_editing {
                        Some(CurrentlyEditing::Key) => {
                            self.currently_editing = Some(CurrentlyEditing::Value);
                        },
                        Some(CurrentlyEditing::Value) => {
                            self.save_key_value();
                        },
                        None => {},
                    },
                    KeyCode::Backspace => self.backspace(),
                    KeyCode::Esc => self.cancel_edit(),
                    KeyCode::Tab => self.toggle_editing(),
                    KeyCode::Char(c) => self.append_char(c),
                    KeyCode::Other => {},
                }
                LoopControl::Continue
            },
        }
    }

    /// Feeds `events` in order, stopping at the first that ends the loop.
    pub fn run_events(&mut self, events: &Vec<KeyEvent>) -> (r: LoopControl)
        requires
            old(self).wf(),
        ensures
            final(self).wf(),
            (final(self).view(), r) == run(old(self).view(), events@),
    {
        let mut i: usize = 0;
        assert(events@.skip(0) =~= events@);
        while i < events.len()
            invariant
                i <= events.len(),
                self.wf(),
                run(old(self).view(), events@) == run(self.view(), events@.skip(i as int)),
            decreases events.len() - i,
        {
            let ctl = self.handle_key(events[i]);
            assert(events@.skip(i as int)[0] == events@[i as int]);
            assert(events@.skip(i as int).drop_first() =~= events@.skip(i + 1));
            if ctl != LoopControl::Continue {
                return ctl;
            }
            i = i + 1;
        }
        assert(events@.skip(i as int).len() == 0);
        LoopControl::Continue
    }
}

} // verus!
