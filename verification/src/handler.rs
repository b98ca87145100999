//! What each key does to the viewer, by mode. Work outside the viewer
//! (scanning the ports again, signalling a process) is not done here: the
//! step returns it as a request, and the result is handed back to `App`.
use vstd::prelude::*;
use crate::app::{step_down, step_up, App, AppMode};
use crate::text::{pop_char, push_char};

verus! {

/// A key press.
#[derive(Debug, Clone, Copy, PartialEq, Eq, Structural)]
pub enum Key {
    Char(char),
    Esc,
    Up,
    Down,
    Enter,
    Backspace,
    Other,
}

/// Work that a key asks for beyond the viewer's state.
#[derive(Debug, Clone, Copy, PartialEq, Eq, Structural)]
pub enum Request {
    /// Nothing more to do.
    Nothing,
    /// Scan the ports again and hand the result to `App::refresh`.
    Refresh,
    /// Signal the selected process (`SIGKILL` when forced, else `SIGTERM`)
    /// and hand the outcome to `App::kill_selected`.
    Kill { force: bool },
}

/// What a key does in normal mode: `q` or Esc quits; Up or `k` and Down or
/// `j` move the selection; `d` and `D` ask to confirm a kill (forced for
/// `D`) when an entry is selected; `/` starts a new search; `r` asks for a
/// new scan; other keys do nothing.
pub open spec fn normal_step(a: App, b: App, key: Key, r: Request) -> bool {
    if key == Key::Char('q') || key == Key::Esc {
        r == Request::Nothing && b == App { should_quit: true, ..a }
    } else if key == Key::Up || key == Key::Char('k') {
        r == Request::Nothing && b == App { selected: step_up(a.selected), ..a }
    } else if key == Key::Down || key == Key::Char('j') {
        r == Request::Nothing && b == App { selected: step_down(a.selected, a.visible().len()), ..a }
    } else if key == Key::Char('d') || key == Key::Char('D') {
        &&& r == Request::Nothing
        &&& b == if a.selected < a.visible().len() {
            App { mode: AppMode::Confirm { force: key == Key::Char('D') }, ..a }
        } else {
            a
        }
    } else if key == Key::Char('/') {
        &&& r == Request::Nothing
        &&& b.filter@ == Seq::<char>::empty()
        &&& b == App { filter: b.filter, selected: 0, mode: AppMode::Search, ..a }
    } else if key == Key::Char('r') {
        r == Request::Refresh && b == a
    } else {
        r == Request::Nothing && b == a
    }
}

/// The filter after a key in search mode: Esc clears it, Backspace drops its
/// last character, a character is appended; other keys keep it.
pub open spec fn search_filter(f: Seq<char>, key: Key) -> Seq<char> {
    match key {
        Key::Esc => Seq::empty(),
        Key::Backspace => if f.len() > 0 {
            f.drop_last()
        } else {
            f
        },
        Key::Char(c) => f.push(c),
        _ => f,
    }
}

/// What a key does in search mode: Enter keeps the filter and returns to
/// normal mode; Esc clears the filter and returns to normal mode; Backspace
/// and characters edit the filter; each of these selects the first entry.
/// Other keys do nothing.
pub open spec fn search_step(a: App, b: App, key: Key) -> bool {
    if key == Key::Enter {
        b == App { selected: 0, mode: AppMode::Normal, ..a }
    } else if key == Key::Esc || key == Key::Backspace || key is Char {
        &&& b.filter@ == search_filter(a.filter@, key)
        &&& b == App {
            filter: b.filter,
            selected: 0,
            mode: if key == Key::Esc {
                AppMode::Normal
            } else {
                a.mode
            },
            ..a
        }
    } else {
        b == a
    }
}

/// What a key does while confirming a kill: `y` asks to signal the selected
/// process; `n` or Esc returns to normal mode; other keys do nothing.
pub open spec fn confirm_step(a: App, b: App, key: Key, force: bool, r: Request) -> bool {
    if key == Key::Char('y') {
        r == Request::Kill { force } && b == a
    } else if key == Key::Char('n') || key == Key::Esc {
        r == Request::Nothing && b == App { mode: AppMode::Normal, ..a }
    } else {
        r == Request::Nothing && b == a
    }
}

/// What a key does in whatever mode the viewer is in.
pub open spec fn key_step(a: App, b: App, key: Key, r: Request) -> bool {
    match a.mode {
        AppMode::Normal => normal_step(a, b, key, r),
        AppMode::Search => search_step(a, b, key) && r == Request::Nothing,
        AppMode::Confirm { force } => confirm_step(a, b, key, force, r),
    }
}

/// Typing a character into the search filter and then deleting it leaves the
/// filter as it was.
pub proof fn lemma_type_then_backspace(f: Seq<char>, c: char)
    ensures
        search_filter(search_filter(f, Key::Char(c)), Key::Backspace) == f,
{
    assert(f.push(c).drop_last() =~= f);
}

/// A kill is confirmed only for a selected entry: in normal mode, a key that
/// leads to the confirmation leaves an entry selected.
pub proof fn lemma_confirm_needs_selection(a: App, b: App, key: Key, r: Request)
    requires
        a.mode == AppMode::Normal,
        key_step(a, b, key, r),
        b.mode is Confirm,
    ensures
        b.selected < b.visible().len(),
        b.ports == a.ports,
        b.filter == a.filter,
{
}

/// `d` then `y` asks for `SIGTERM`, and `D` then `y` for `SIGKILL`, of the
/// selected process.
pub proof fn lemma_confirmed_kill_uses_chosen_signal(
    a: App,
    b: App,
    c: App,
    first: Key,
    r1: Request,
    r2: Request,
)
    requires
        a.mode == AppMode::Normal,
        a.selected < a.visible().len(),
        first == Key::Char('d') || first == Key::Char('D'),
        key_step(a, b, first, r1),
        key_step(b, c, Key::Char('y'), r2),
    ensures
        r2 == (Request::Kill { force: first == Key::Char('D') }),
        c == b,
        c.selected == a.selected,
        c.ports == a.ports,
        c.filter == a.filter,
{
}

/// Handles a key in normal mode.
pub fn handle_normal(app: &mut App, key: Key) -> (r: Request)
    ensures
        normal_step(*old(app), *final(app), key, r),
{
    match key {
        Key::Char('q') | Key::Esc => {
            app.should_quit = true;
            Request::Nothing
        },
        Key::Up | Key::Char('k') => {
            app.move_up();
            Request::Nothing
        },
        Key::Down | Key::Char('j') => {
            app.move_down();
            Request::Nothing
        },
        Key::Char('d') => {
            if app.selected_port().is_some() {
                app.mode = AppMode::Confirm { force: false };
            }
            Request::Nothing
        },
        Key::Char('D') => {
            if app.selected_port().is_some() {
                app.mode = AppMode::Confirm { force: true };
            }
            Request::Nothing
        },
        Key::Char('/') => {
            app.filter = String::new();
            app.selected = 0;
            app.mode = AppMode::Search;
            Request::Nothing
        },
        Key::Char('r') => Request::Refresh,
        _ => Request::Nothing,
    }
}

/// Handles a key in search mode.
pub fn handle_search(app: &mut App, key: Key)
    ensures
        search_step(*old(app), *final(app), key),
{
    match key {
        Key::Enter => {
            app.selected = 0;
            app.mode = AppMode::Normal;
        },
        Key::Esc => {
            app.filter = String::new();
            app.selected = 0;
            app.mode = AppMode::Normal;
        },
        Key::Backspace => {
            pop_char(&mut app.filter);
            app.selected = 0;
        },
        Key::Char(c) => {
            push_char(&mut app.filter, c);
            app.selected = 0;
        },
        _ => {},
    }
}

/// Handles a key while confirming a kill (forced when `force`).
pub fn handle_confirm(app: &mut App, key: Key, force: bool) -> (r: Request)
    ensures
        confirm_step(*old(app), *final(app), key, force, r),
{
    match key {
        Key::Char('y') => Request::Kill { force },
        Key::Char('n') | Key::Esc => {
            app.mode = AppMode::Normal;
            Request::Nothing
        },
        _ => Request::Nothing,
    }
}

/// Handles a key press according to the current mode.
pub fn handle_key(app: &mut App, key: Key) -> (r: Request)
    ensures
        key_step(*old(app), *final(app), key, r),
{
    match app.mode {
        AppMode::Normal => handle_normal(app, key),
        AppMode::Search => {
            handle_search(app, key);
            Request::Nothing
        },
        AppMode::Confirm { force } => handle_confirm(app, key, force),
    }
}

} // verus!
