//! The selection engine: the state of an interactive multi-selection over the
//! candidates, and how each input event changes it.

use std::collections::BTreeSet;
use vstd::prelude::*;

verus! {

broadcast use vstd::laws_cmp::group_laws_cmp, vstd::std_specs::btree::group_btree_axioms;

/// What one step of the selection loop ends in.
#[derive(Debug, Clone, Copy, PartialEq, Eq, Structural)]
pub enum TUILoopEvent {
    Continue,
    EarlyReturn,
    Interrupted,
    Quit,
    Submit,
}

/// A key, as the selection engine reads it.
#[derive(Debug, Clone, Copy, PartialEq, Eq, Structural)]
pub enum KeyCode {
    Char(char),
    Up,
    Down,
    Left,
    Right,
    PageUp,
    PageDown,
    Home,
    End,
    Enter,
    Esc,
    Other,
}

/// An input event: a key with its control modifier and whether it was pressed
/// (rather than released or repeated), or anything else.
#[derive(Debug, Clone, Copy, PartialEq, Eq, Structural)]
pub enum InputEvent {
    Key { code: KeyCode, control: bool, press: bool },
    Other,
}

/// What an input event asks for.
#[derive(Debug, Clone, Copy, PartialEq, Eq, Structural)]
pub enum Action {
    Down,
    Up,
    HalfPageDown,
    HalfPageUp,
    PageDown,
    PageUp,
    Top,
    Bottom,
    PreviousSelected,
    NextSelected,
    ToggleHelp,
    ToggleSelection,
    ToggleAll,
    Quit,
    Submit,
    Interrupt,
    Nothing,
}

/// The key legend.
pub open spec fn spec_action_of(event: InputEvent) -> Action {
    match event {
        InputEvent::Key { code, control, press } => if !press {
            Action::Nothing
        } else {
            match code {
                KeyCode::Char('j') | KeyCode::Down => Action::Down,
                KeyCode::Char('d') => Action::HalfPageDown,
                KeyCode::Char('f') | KeyCode::PageDown => Action::PageDown,
                KeyCode::Char('k') | KeyCode::Up => Action::Up,
                KeyCode::Char('u') => Action::HalfPageUp,
                KeyCode::Char('b') | KeyCode::PageUp => Action::PageUp,
                KeyCode::Char('h') | KeyCode::Left => Action::PreviousSelected,
                KeyCode::Char('l') | KeyCode::Right => Action::NextSelected,
                KeyCode::Char('g') | KeyCode::Home => Action::Top,
                KeyCode::Char('G') | KeyCode::End => Action::Bottom,
                KeyCode::Char('?') => Action::ToggleHelp,
                KeyCode::Char(' ') => Action::ToggleSelection,
                KeyCode::Char('a') => Action::ToggleAll,
                KeyCode::Char('q') | KeyCode::Esc => Action::Quit,
                KeyCode::Enter => Action::Submit,
                KeyCode::Char('c') => if control {
                    Action::Interrupt
                } else {
                    Action::Nothing
                },
                _ => Action::Nothing,
            }
        },
        InputEvent::Other => Action::Nothing,
    }
}

/// Maps an input event to what it asks for.
pub fn action_of(event: InputEvent) -> (r: Action)
    ensures
        r == spec_action_of(event),
{
    match event {
        InputEvent::Key { code, control, press } => {
            if !press {
                return Action::Nothing;
            }
            match code {
                KeyCode::Char('j') | KeyCode::Down => Action::Down,
                KeyCode::Char('d') => Action::HalfPageDown,
                KeyCode::Char('f') | KeyCode::PageDown => Action::PageDown,
                KeyCode::Char('k') | KeyCode::Up => Action::Up,
                KeyCode::Char('u') => Action::HalfPageUp,
                KeyCode::Char('b') | KeyCode::PageUp => Action::PageUp,
                KeyCode::Char('h') | KeyCode::Left => Action::PreviousSelected,
                KeyCode::Char('l') | KeyCode::Right => Action::NextSelected,
                KeyCode::Char('g') | KeyCode::Home => Action::Top,
                KeyCode::Char('G') | KeyCode::End => Action::Bottom,
                KeyCode::Char('?') => Action::ToggleHelp,
                KeyCode::Char(' ') => Action::ToggleSelection,
                KeyCode::Char('a') => Action::ToggleAll,
                KeyCode::Char('q') | KeyCode::Esc => Action::Quit,
                KeyCode::Enter => Action::Submit,
                KeyCode::Char('c') => if control {
                    Action::Interrupt
                } else {
                    Action::Nothing
                },
                _ => Action::Nothing,
            }
        },
        InputEvent::Other => Action::Nothing,
    }
}

/// The cursor after stepping down by `amount` over `n` items: past the last
/// item it wraps to the first, otherwise it stops at the last.
pub open spec fn step_down(cursor: int, n: int, amount: int) -> int {
    if cursor == n - 1 {
        0
    } else if cursor + amount > n - 1 {
        n - 1
    } else {
        cursor + amount
    }
}

/// The cursor after stepping up by `amount` over `n` items: before the first
/// item it wraps to the last, otherwise it stops at the first.
pub open spec fn step_up(cursor: int, n: int, amount: int) -> int {
    if cursor == 0 {
        n - 1
    } else if cursor - amount < 0 {
        0
    } else {
        cursor - amount
    }
}

/// The greatest selected index below `bound`, if any.
pub open spec fn last_selected_below(flags: Seq<bool>, bound: int) -> Option<int>
    decreases bound,
{
    if bound <= 0 {
        None
    } else if flags[bound - 1] {
        Some(bound - 1)
    } else {
        last_selected_below(flags, bound - 1)
    }
}

/// The least selected index at or above `from`, if any.
pub open spec fn first_selected_from(flags: Seq<bool>, from: int) -> Option<int>
    decreases flags.len() - from,
{
    if from < 0 || from >= flags.len() {
        None
    } else if flags[from] {
        Some(from)
    } else {
        first_selected_from(flags, from + 1)
    }
}

/// The nearest selected index before `cursor`, else the last selected one, else
/// `cursor` itself.
pub open spec fn previous_selected(flags: Seq<bool>, cursor: int) -> int {
    match last_selected_below(flags, cursor) {
        Some(j) => j,
        None => match last_selected_below(flags, flags.len() as int) {
            Some(j) => j,
            None => cursor,
        },
    }
}

/// The nearest selected index after `cursor`, else the first selected one, else
/// `cursor` itself.
pub open spec fn next_selected(flags: Seq<bool>, cursor: int) -> int {
    match first_selected_from(flags, cursor + 1) {
        Some(j) => j,
        None => match first_selected_from(flags, 0) {
            Some(j) => j,
            None => cursor,
        },
    }
}

/// The cursor after `action`, over the selection `flags` with a viewport of
/// `height` rows.
pub open spec fn cursor_after(action: Action, cursor: int, flags: Seq<bool>, height: int) -> int {
    let n = flags.len() as int;
    match action {
        Action::Down => step_down(cursor, n, 1),
        Action::Up => step_up(cursor, n, 1),
        Action::HalfPageDown => step_down(cursor, n, height / 2),
        Action::HalfPageUp => step_up(cursor, n, height / 2),
        Action::PageDown => step_down(cursor, n, height),
        Action::PageUp => step_up(cursor, n, height),
        Action::Top => 0,
        Action::Bottom => n - 1,
        Action::PreviousSelected => previous_selected(flags, cursor),
        Action::NextSelected => next_selected(flags, cursor),
        _ => cursor,
    }
}

/// Whether every index is selected, that is whether the number of selected
/// indices equals the number of items.
pub open spec fn all_selected(flags: Seq<bool>) -> bool {
    forall|i: int| 0 <= i < flags.len() ==> #[trigger] flags[i]
}

/// The selection after `action` with the cursor at `cursor`.
pub open spec fn flags_after(action: Action, cursor: int, flags: Seq<bool>) -> Seq<bool> {
    match action {
        Action::ToggleSelection => flags.update(cursor, !flags[cursor]),
        Action::ToggleAll => Seq::new(flags.len(), |i: int| !all_selected(flags)),
        _ => flags,
    }
}

/// Whether the help overlay is shown after `action`.
pub open spec fn help_after(action: Action, help: bool) -> bool {
    if action == Action::ToggleHelp {
        !help
    } else {
        help
    }
}

/// How the loop goes on after `action`.
pub open spec fn outcome_of(action: Action) -> TUILoopEvent {
    match action {
        Action::Quit => TUILoopEvent::Quit,
        Action::Submit => TUILoopEvent::Submit,
        Action::Interrupt => TUILoopEvent::Interrupted,
        _ => TUILoopEvent::Continue,
    }
}

/// The selected items, in index order.
pub open spec fn chosen(items: Seq<Seq<char>>, flags: Seq<bool>) -> Seq<Seq<char>>
    decreases items.len(),
{
    if items.len() == 0 || flags.len() == 0 {
        seq![]
    } else {
        let rest = chosen(items.drop_last(), flags.drop_last());
        if flags.last() {
            rest.push(items.last())
        } else {
            rest
        }
    }
}

/// For each index below `n`, whether it is in `s`.
pub open spec fn flags_of(s: Set<usize>, n: nat) -> Seq<bool> {
    Seq::new(n, |i: int| s.contains(i as usize))
}

/// The state of one selection session over a non-empty list of items.
pub struct TUIState {
    items: Vec<String>,
    cursor: usize,
    selected: BTreeSet<usize>,
    main_area_height: u16,
    is_showing_help: bool,
}

impl TUIState {
    pub closed spec fn spec_items(&self) -> Seq<Seq<char>> {
        self.items@.map_values(|s: String| s@)
    }

    pub closed spec fn spec_cursor(&self) -> int {
        self.cursor as int
    }

    /// For each item, whether it is selected.
    pub closed spec fn spec_flags(&self) -> Seq<bool> {
        flags_of(self.selected@, self.items@.len())
    }

    /// Every selected index designates an item.
    pub closed spec fn selection_in_range(&self) -> bool {
        forall|x: usize| #[trigger] self.selected@.contains(x) ==> x < self.items@.len()
    }

    pub closed spec fn spec_height(&self) -> int {
        self.main_area_height as int
    }

    pub closed spec fn spec_help(&self) -> bool {
        self.is_showing_help
    }

    /// The selected indices.
    pub open spec fn selected_set(&self) -> Set<int> {
        Set::new(|i: int| 0 <= i < self.spec_flags().len() && self.spec_flags()[i])
    }

    /// There is at least one item, the cursor designates one of them, and there
    /// is one selection flag for each.
    pub open spec fn wf(&self) -> bool {
        &&& self.spec_items().len() > 0
        &&& 0 <= self.spec_cursor() < self.spec_items().len()
        &&& self.spec_flags().len() == self.spec_items().len()
        &&& self.selection_in_range()
    }

    /// A session over `items`, with the cursor on the first, nothing selected
    /// and the help hidden.
    pub fn new(items: Vec<String>) -> (r: Self)
        requires
            items.len() > 0,
        ensures
            r.wf(),
            r.spec_items() == items@.map_values(|s: String| s@),
            r.spec_cursor() == 0,
            r.selected_set() == Set::<int>::empty(),
            r.spec_height() == 0,
            !r.spec_help(),
    {
        let selected: BTreeSet<usize> = BTreeSet::new();
        let r = TUIState { items, cursor: 0, selected, main_area_height: 0, is_showing_help: false };
        proof {
            assert(r.selected_set() =~= Set::<int>::empty());
        }
        r
    }

    pub fn cursor(&self) -> (r: usize)
        ensures
            r == self.spec_cursor(),
    {
        self.cursor
    }

    pub fn len(&self) -> (r: usize)
        ensures
            r == self.spec_items().len(),
    {
        self.items.len()
    }

    pub fn items(&self) -> (r: &Vec<String>)
        ensures
            r@.map_values(|s: String| s@) == self.spec_items(),
    {
        &self.items
    }

    pub fn is_selected(&self, i: usize) -> (r: bool)
        requires
            self.wf(),
        ensures
            r == self.selected_set().contains(i as int),
    {
        self.selected.contains(&i)
    }

    pub fn is_showing_help(&self) -> (r: bool)
        ensures
            r == self.spec_help(),
    {
        self.is_showing_help
    }

    pub fn viewport_height(&self) -> (r: u16)
        ensures
            r == self.spec_height(),
    {
        self.main_area_height
    }

    /// Records the height of the list area that was last drawn.
    pub fn set_viewport_height(&mut self, height: u16)
        ensures
            final(self).spec_height() == height,
            final(self).spec_items() == old(self).spec_items(),
            final(self).spec_cursor() == old(self).spec_cursor(),
            final(self).spec_flags() == old(self).spec_flags(),
            final(self).spec_help() == old(self).spec_help(),
    {
        self.main_area_height = height;
    }
}

fn find_last_selected_below(selected: &BTreeSet<usize>, n: usize, bound: usize) -> (r: Option<usize>)
    requires
        bound <= n,
    ensures
        r matches Some(j) ==> j < bound && last_selected_below(flags_of(selected@, n as nat), bound as int) == Some(j as int),
        r is None ==> last_selected_below(flags_of(selected@, n as nat), bound as int) is None,
{
    let ghost flags = flags_of(selected@, n as nat);
    let mut i: usize = bound;
    while i > 0
        invariant
            i <= bound <= n,
            flags == flags_of(selected@, n as nat),
            last_selected_below(flags, bound as int) == last_selected_below(flags, i as int),
        decreases i,
    {
        if selected.contains(&(i - 1)) {
            return Some(i - 1);
        }
        i = i - 1;
    }
    None
}

fn find_first_selected_from(selected: &BTreeSet<usize>, n: usize, from: usize) -> (r: Option<usize>)
    ensures
        r matches Some(j) ==> j < n && first_selected_from(flags_of(selected@, n as nat), from as int) == Some(j as int),
        r is None ==> first_selected_from(flags_of(selected@, n as nat), from as int) is None,
{
    let ghost flags = flags_of(selected@, n as nat);
    let mut i: usize = from;
    while i < n
        invariant
            from <= i,
            flags == flags_of(selected@, n as nat),
            first_selected_from(flags, from as int) == first_selected_from(flags, i as int),
        decreases n - i,
    {
        if selected.contains(&i) {
            return Some(i);
        }
        i = i + 1;
    }
    None
}

fn move_down(cursor: usize, n: usize, amount: usize) -> (r: usize)
    requires
        cursor < n,
    ensures
        r == step_down(cursor as int, n as int, amount as int),
{
    if cursor == n - 1 {
        0
    } else if amount > n - 1 - cursor {
        n - 1
    } else {
        cursor + amount
    }
}

fn move_up(cursor: usize, n: usize, amount: usize) -> (r: usize)
    requires
        cursor < n,
    ensures
        r == step_up(cursor as int, n as int, amount as int),
{
    if cursor == 0 {
        n - 1
    } else if amount > cursor {
        0
    } else {
        cursor - amount
    }
}

fn every_selected(selected: &BTreeSet<usize>, n: usize) -> (r: bool)
    ensures
        r == all_selected(flags_of(selected@, n as nat)),
{
    let ghost flags = flags_of(selected@, n as nat);
    let mut i: usize = 0;
    while i < n
        invariant
            i <= n,
            flags == flags_of(selected@, n as nat),
            forall|k: int| 0 <= k < i ==> #[trigger] flags[k],
        decreases n - i,
    {
        if !selected.contains(&i) {
            proof {
                assert(!flags[i as int]);
            }
            return false;
        }
        i = i + 1;
    }
    true
}

/// Selects every index below `n`.
fn select_all(selected: &mut BTreeSet<usize>, n: usize)
    ensures
        final(selected)@ == Set::new(|x: usize| x < n),
{
    selected.clear();
    let mut j: usize = 0;
    while j < n
        invariant
            j <= n,
            selected@ == Set::new(|x: usize| x < j),
        decreases n - j,
    {
        selected.insert(j);
        proof {
            assert(selected@ =~= Set::new(|x: usize| x < j + 1));
        }
        j = j + 1;
    }
}

/// Applies one input event to the session and says how the loop goes on.
pub fn handle_keypress(tui_state: &mut TUIState, event: InputEvent) -> (r: TUILoopEvent)
    requires
        old(tui_state).wf(),
    ensures
        final(tui_state).wf(),
        final(tui_state).spec_items() == old(tui_state).spec_items(),
        final(tui_state).spec_height() == old(tui_state).spec_height(),
        final(tui_state).spec_cursor() == cursor_after(
            spec_action_of(event),
            old(tui_state).spec_cursor(),
            old(tui_state).spec_flags(),
            old(tui_state).spec_height(),
        ),
        final(tui_state).spec_flags() == flags_after(
            spec_action_of(event),
            old(tui_state).spec_cursor(),
            old(tui_state).spec_flags(),
        ),
        final(tui_state).spec_help() == help_after(spec_action_of(event), old(tui_state).spec_help()),
        r == outcome_of(spec_action_of(event)),
{
    let action = action_of(event);
    let n = tui_state.items.len();
    let cursor = tui_state.cursor;
    let height = tui_state.main_area_height as usize;
    match action {
        Action::Down => tui_state.cursor = move_down(cursor, n, 1),
        Action::Up => tui_state.cursor = move_up(cursor, n, 1),
        Action::HalfPageDown => tui_state.cursor = move_down(cursor, n, height / 2),
        Action::HalfPageUp => tui_state.cursor = move_up(cursor, n, height / 2),
        Action::PageDown => tui_state.cursor = move_down(cursor, n, height),
        Action::PageUp => tui_state.cursor = move_up(cursor, n, height),
        Action::Top => tui_state.cursor = 0,
        Action::Bottom => tui_state.cursor = n - 1,
        Action::PreviousSelected => {
            match find_last_selected_below(&tui_state.selected, n, cursor) {
                Some(prev) => tui_state.cursor = prev,
                None => match find_last_selected_below(&tui_state.selected, n, n) {
                    Some(last) => tui_state.cursor = last,
                    None => {},
                },
            }
        },
        Action::NextSelected => {
            match find_first_selected_from(&tui_state.selected, n, cursor + 1) {
                Some(next) => tui_state.cursor = next,
                None => match find_first_selected_from(&tui_state.selected, n, 0) {
                    Some(first) => tui_state.cursor = first,
                    None => {},
                },
            }
        },
        Action::ToggleHelp => tui_state.is_showing_help = !tui_state.is_showing_help,
        Action::ToggleSelection => {
            let ghost before = tui_state.selected@;
            if tui_state.selected.contains(&cursor) {
                tui_state.selected.remove(&cursor);
            } else {
                tui_state.selected.insert(cursor);
            }
            proof {
                let flags = flags_of(before, n as nat);
                assert(flags_of(tui_state.selected@, n as nat) =~= flags.update(cursor as int, !flags[cursor as int]));
            }
        },
        Action::ToggleAll => {
            let ghost before = tui_state.selected@;
            if every_selected(&tui_state.selected, n) {
                tui_state.selected.clear();
            } else {
                select_all(&mut tui_state.selected, n);
            }
            proof {
                let flags = flags_of(before, n as nat);
                assert(flags_of(tui_state.selected@, n as nat) =~= Seq::new(n as nat, |i: int| !all_selected(flags)));
            }
        },
        Action::Quit => return TUILoopEvent::Quit,
        Action::Submit => return TUILoopEvent::Submit,
        Action::Interrupt => return TUILoopEvent::Interrupted,
        Action::Nothing => {},
    }
    TUILoopEvent::Continue
}

/// The selected items, in index order: the order of the candidates, not the
/// order in which they were selected.
pub fn selected_paths(tui_state: &TUIState) -> (r: Vec<String>)
    requires
        tui_state.wf(),
    ensures
        r@.map_values(|s: String| s@) == chosen(tui_state.spec_items(), tui_state.spec_flags()),
{
    let n = tui_state.items.len();
    let ghost items = tui_state.spec_items();
    let ghost flags = tui_state.spec_flags();
    let mut r: Vec<String> = Vec::new();
    let mut i: usize = 0;
    while i < n
        invariant
            n == items.len(),
            n == flags.len(),
            items == tui_state.spec_items(),
            flags == tui_state.spec_flags(),
            i <= n,
            r@.map_values(|s: String| s@) == chosen(items.subrange(0, i as int), flags.subrange(0, i as int)),
        decreases n - i,
    {
        let ghost before = r@.map_values(|s: String| s@);
        proof {
            assert(items.subrange(0, i + 1).drop_last() =~= items.subrange(0, i as int));
            assert(flags.subrange(0, i + 1).drop_last() =~= flags.subrange(0, i as int));
        }
        if tui_state.selected.contains(&i) {
            r.push(tui_state.items[i].clone());
            proof {
                assert(r@.map_values(|s: String| s@) =~= before.push(items[i as int]));
            }
        }
        i = i + 1;
    }
    proof {
        assert(items.subrange(0, n as int) =~= items);
        assert(flags.subrange(0, n as int) =~= flags);
    }
    r
}

/// Opens a session over the candidates, or ends at once with no selection
/// where there are none.
pub fn start(candidates: Vec<String>) -> (r: Result<TUIState, (Vec<String>, TUILoopEvent)>)
    ensures
        candidates@.len() == 0 <==> r is Err,
        r matches Err(e) ==> e.0@.len() == 0 && e.1 == TUILoopEvent::EarlyReturn,
        r matches Ok(s) ==> {
            &&& s.wf()
            &&& s.spec_items() == candidates@.map_values(|c: String| c@)
            &&& s.spec_cursor() == 0
            &&& s.selected_set() == Set::<int>::empty()
            &&& !s.spec_help()
        },
{
    if candidates.len() == 0 {
        return Err((Vec::new(), TUILoopEvent::EarlyReturn));
    }
    Ok(TUIState::new(candidates))
}

/// One turn of the selection loop after a frame was drawn: applies the event,
/// then says what the session ends with, or `None` while it goes on. A quit or
/// an interrupt ends with no paths; a submit with the selected paths in index
/// order.
pub fn run_selection_step(tui_state: &mut TUIState, event: InputEvent) -> (r: Option<(Vec<String>, TUILoopEvent)>)
    requires
        old(tui_state).wf(),
    ensures
        final(tui_state).wf(),
        final(tui_state).spec_items() == old(tui_state).spec_items(),
        final(tui_state).spec_height() == old(tui_state).spec_height(),
        final(tui_state).spec_cursor() == cursor_after(
            spec_action_of(event),
            old(tui_state).spec_cursor(),
            old(tui_state).spec_flags(),
            old(tui_state).spec_height(),
        ),
        final(tui_state).spec_flags() == flags_after(
            spec_action_of(event),
            old(tui_state).spec_cursor(),
            old(tui_state).spec_flags(),
        ),
        final(tui_state).spec_help() == help_after(spec_action_of(event), old(tui_state).spec_help()),
        outcome_of(spec_action_of(event)) == TUILoopEvent::Continue <==> r is None,
        r matches Some(done) ==> {
            &&& done.1 == outcome_of(spec_action_of(event))
            &&& done.1 == TUILoopEvent::Submit ==> done.0@.map_values(|s: String| s@) == chosen(
                old(tui_state).spec_items(),
                old(tui_state).spec_flags(),
            )
            &&& done.1 != TUILoopEvent::Submit ==> done.0@.len() == 0
        },
{
    match handle_keypress(tui_state, event) {
        TUILoopEvent::Continue => None,
        TUILoopEvent::Submit => Some((selected_paths(tui_state), TUILoopEvent::Submit)),
        TUILoopEvent::Quit => Some((Vec::new(), TUILoopEvent::Quit)),
        TUILoopEvent::Interrupted => Some((Vec::new(), TUILoopEvent::Interrupted)),
        TUILoopEvent::EarlyReturn => None,
    }
}

/// Stepping down from the last item lands on the first, and stepping up from
/// the first lands on the last.
pub proof fn law_cursor_wraps(flags: Seq<bool>, height: int)
    requires
        flags.len() > 0,
    ensures
        cursor_after(Action::Down, flags.len() - 1, flags, height) == 0,
        cursor_after(Action::Up, 0, flags, height) == flags.len() - 1,
{
}

/// Selecting all on a session with nothing selected selects every index, and
/// selecting all again clears every index.
pub proof fn law_toggle_all(cursor: int, flags: Seq<bool>)
    requires
        forall|i: int| 0 <= i < flags.len() ==> !#[trigger] flags[i],
        flags.len() > 0,
    ensures
        all_selected(flags_after(Action::ToggleAll, cursor, flags)),
        flags_after(Action::ToggleAll, cursor, flags_after(Action::ToggleAll, cursor, flags)) == flags,
{
    assert(!flags[0]);
    let once = flags_after(Action::ToggleAll, cursor, flags);
    assert(all_selected(once));
    assert(flags_after(Action::ToggleAll, cursor, once) =~= flags);
}

/// Toggling the selection of two items gives the same selection in either
/// order, so what a submit yields does not depend on the order of selection.
pub proof fn law_toggle_order_irrelevant(flags: Seq<bool>, i: int, j: int)
    requires
        0 <= i < flags.len(),
        0 <= j < flags.len(),
    ensures
        flags_after(Action::ToggleSelection, j, flags_after(Action::ToggleSelection, i, flags))
            == flags_after(Action::ToggleSelection, i, flags_after(Action::ToggleSelection, j, flags)),
{
    assert(flags_after(Action::ToggleSelection, j, flags_after(Action::ToggleSelection, i, flags))
        =~= flags_after(Action::ToggleSelection, i, flags_after(Action::ToggleSelection, j, flags)));
}

/// With every item selected, a submit yields all the items, in list order.
pub proof fn law_submit_in_index_order(items: Seq<Seq<char>>, flags: Seq<bool>)
    requires
        items.len() == flags.len(),
        all_selected(flags),
    ensures
        chosen(items, flags) == items,
    decreases items.len(),
{
    if items.len() > 0 {
        let fl = flags.drop_last();
        assert(all_selected(fl)) by {
            assert forall|i: int| 0 <= i < fl.len() implies #[trigger] fl[i] by {
                assert(flags[i]);
            }
        }
        law_submit_in_index_order(items.drop_last(), fl);
        assert(flags[flags.len() - 1]);
        assert(items.drop_last().push(items.last()) =~= items);
    }
}

} // verus!
