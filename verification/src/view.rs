//! What the viewer's screen shows, apart from drawing it: the table's title
//! and rows, the status bar's texts, and the place and text of the kill
//! confirmation dialog.
use vstd::prelude::*;
use crate::app::{App, AppMode};
use crate::number::{decimal, decimal_string, push_decimal};
use crate::port::PortInfo;
use crate::text::{push_str, to_string};

verus! {

/// The table's title: the program's name, and the search filter when there
/// is one.
pub open spec fn title_text(filter: Seq<char>) -> Seq<char> {
    if filter.len() == 0 {
        " pwatch "@
    } else {
        " pwatch [検索: "@ + filter + "] "@
    }
}

/// The table's title.
pub fn table_title(filter: &String) -> (t: String)
    ensures
        t@ == title_text(filter@),
{
    if filter.as_str().is_empty() {
        to_string(" pwatch ")
    } else {
        let mut t = to_string(" pwatch [検索: ");
        push_str(&mut t, filter.as_str());
        push_str(&mut t, "] ");
        t
    }
}

/// The cells of a table row: port, protocol, process id, process name and
/// command line.
pub fn port_row(p: &PortInfo) -> (cells: Vec<String>)
    ensures
        cells@.len() == 5,
        cells@[0]@ == decimal(p.port as nat),
        cells@[1]@ == p.protocol@,
        cells@[2]@ == decimal(p.pid as nat),
        cells@[3]@ == p.process_name@,
        cells@[4]@ == p.command@,
{
    let mut cells: Vec<String> = Vec::new();
    cells.push(decimal_string(p.port as u64));
    cells.push(p.protocol.clone());
    cells.push(decimal_string(p.pid as u64));
    cells.push(p.process_name.clone());
    cells.push(p.command.clone());
    cells
}

/// The name of the mode in the status bar.
pub open spec fn mode_name(mode: AppMode) -> Seq<char> {
    match mode {
        AppMode::Normal => "NORMAL"@,
        AppMode::Search => "SEARCH"@,
        AppMode::Confirm { .. } => "CONFIRM"@,
    }
}

/// The mode as the status bar shows it, padded with a space on each side.
pub fn mode_badge(mode: AppMode) -> (t: String)
    ensures
        t@ == " "@ + mode_name(mode) + " "@,
{
    let mut t = to_string(" ");
    match mode {
        AppMode::Normal => push_str(&mut t, "NORMAL"),
        AppMode::Search => push_str(&mut t, "SEARCH"),
        AppMode::Confirm { .. } => push_str(&mut t, "CONFIRM"),
    }
    push_str(&mut t, " ");
    t
}

/// The keys that the status bar lists for a mode.
pub open spec fn help_for(mode: AppMode) -> Seq<char> {
    match mode {
        AppMode::Normal => "q:終了 j/k:移動 d:kill D:force-kill /:検索 r:更新"@,
        AppMode::Search => "Enter:確定 Esc:キャンセル"@,
        AppMode::Confirm { .. } => "y:実行 n:キャンセル"@,
    }
}

/// The keys that the status bar lists for a mode.
pub fn help_text(mode: AppMode) -> (t: &'static str)
    ensures
        t@ == help_for(mode),
{
    match mode {
        AppMode::Normal => "q:終了 j/k:移動 d:kill D:force-kill /:検索 r:更新",
        AppMode::Search => "Enter:確定 Esc:キャンセル",
        AppMode::Confirm { .. } => "y:実行 n:キャンセル",
    }
}

/// The status bar's message: the viewer's message, or nothing.
pub fn status_message(app: &App) -> (t: &str)
    ensures
        t@ == match app.message {
            Some(m) => m@,
            None => Seq::<char>::empty(),
        },
{
    match &app.message {
        Some(m) => m.as_str(),
        None => {
            proof {
                reveal_strlit("");
            }
            ""
        },
    }
}

/// The text of the kill confirmation dialog for the entry `p` (`None` when
/// nothing is selected).
pub open spec fn confirm_dialog_text(p: Option<PortInfo>, force: bool) -> Seq<char> {
    match p {
        Some(info) => (if force {
            "SIGKILL (強制)"@
        } else {
            "SIGTERM"@
        }) + " を PID "@ + decimal(info.pid as nat) + " ("@ + info.process_name@
            + ") に送信しますか?\n\n  y: 実行  n: キャンセル"@,
        None => "ポートが選択されていません"@,
    }
}

/// The text of the kill confirmation dialog.
pub fn confirm_text(app: &App, force: bool) -> (t: String)
    ensures
        t@ == confirm_dialog_text(
            if app.selected < app.visible().len() {
                Some(app.visible()[app.selected as int])
            } else {
                None
            },
            force,
        ),
{
    match app.selected_port() {
        Some(info) => {
            let mut t = if force {
                to_string("SIGKILL (強制)")
            } else {
                to_string("SIGTERM")
            };
            push_str(&mut t, " を PID ");
            push_decimal(&mut t, info.pid as u64);
            push_str(&mut t, " (");
            push_str(&mut t, info.process_name.as_str());
            push_str(&mut t, ") に送信しますか?\n\n  y: 実行  n: キャンセル");
            t
        },
        None => to_string("ポートが選択されていません"),
    }
}

/// A rectangle of the screen, in cells.
#[derive(Debug, Clone, Copy, PartialEq, Eq, Structural)]
pub struct DialogArea {
    pub x: u16,
    pub y: u16,
    pub width: u16,
    pub height: u16,
}

/// `a - b`, or 0 when `b > a` (`saturating_sub`).
pub open spec fn sat_sub(a: int, b: int) -> int {
    if a >= b {
        a - b
    } else {
        0
    }
}

/// Where the confirmation dialog goes on a screen of the given size: at most
/// 50 cells wide and 2 narrower than the screen on each side, 5 lines high,
/// centred.
pub fn confirm_dialog_area(screen_width: u16, screen_height: u16) -> (d: DialogArea)
    ensures
        d.width == (if sat_sub(screen_width as int, 4) < 50 {
            sat_sub(screen_width as int, 4)
        } else {
            50
        }),
        d.height == 5,
        d.x == sat_sub(screen_width as int, d.width as int) / 2,
        d.y == sat_sub(screen_height as int, 5) / 2,
        d.x + d.width <= screen_width,
        screen_height >= 5 ==> d.y + d.height <= screen_height,
{
    let inner = if screen_width >= 4 {
        screen_width - 4
    } else {
        0
    };
    let width = if inner < 50 {
        inner
    } else {
        50
    };
    let height: u16 = 5;
    let x = (screen_width - width) / 2;
    let y = if screen_height >= height {
        (screen_height - height) / 2
    } else {
        0
    };
    DialogArea { x, y, width, height }
}

} // verus!
