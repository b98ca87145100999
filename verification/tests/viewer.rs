use pwatch::app::{sent_message, App, AppMode, KillOutcome};
use pwatch::cli::{Cli, Command};
use pwatch::config::{default_true, load_from, Config, ConfigFile};
use pwatch::handler::{handle_confirm, handle_key, handle_normal, handle_search, Key, Request};
use pwatch::port::{PortInfo, Signal};
use pwatch::view::{
    confirm_dialog_area, confirm_text, help_text, mode_badge, port_row, status_message, table_title,
    DialogArea,
};

fn info(port: u16, pid: u32, name: &str, command: &str) -> PortInfo {
    PortInfo {
        port,
        protocol: "tcp".to_string(),
        pid,
        process_name: name.to_string(),
        command: command.to_string(),
    }
}

fn sample() -> Vec<PortInfo> {
    vec![
        info(22, 100, "sshd", "/usr/sbin/sshd -D"),
        info(5432, 200, "postgres", "postgres -D /var/lib/pg"),
        info(8080, 300, "node", "node server.js"),
    ]
}

fn shown(app: &App) -> Vec<u16> {
    app.filtered_ports().iter().map(|p| p.port).collect()
}

#[test]
fn new_app_starts_normal() {
    let app = App::new(sample());
    assert_eq!(app.ports.len(), 3);
    assert_eq!(app.selected, 0);
    assert_eq!(app.filter, "");
    assert_eq!(app.mode, AppMode::Normal);
    assert!(!app.should_quit);
    assert!(app.message.is_none());
    assert_eq!(AppMode::default(), AppMode::Normal);
}

#[test]
fn empty_filter_shows_every_port() {
    let app = App::new(sample());
    assert_eq!(shown(&app), vec![22, 5432, 8080]);
}

#[test]
fn filter_matches_port_name_or_command() {
    let mut app = App::new(sample());
    app.filter = "80".to_string();
    assert_eq!(shown(&app), vec![8080]);
    app.filter = "post".to_string();
    assert_eq!(shown(&app), vec![5432]);
    app.filter = "server.js".to_string();
    assert_eq!(shown(&app), vec![8080]);
    app.filter = "2".to_string();
    assert_eq!(shown(&app), vec![22, 5432]);
    app.filter = "nothing".to_string();
    assert!(shown(&app).is_empty());
}

#[test]
fn moves_stay_inside_the_list() {
    let mut app = App::new(sample());
    app.move_up();
    assert_eq!(app.selected, 0);
    app.move_down();
    app.move_down();
    assert_eq!(app.selected, 2);
    app.move_down();
    assert_eq!(app.selected, 2);
    app.move_up();
    assert_eq!(app.selected, 1);
}

#[test]
fn down_then_up_returns() {
    let mut app = App::new(sample());
    app.selected = 1;
    app.move_down();
    app.move_up();
    assert_eq!(app.selected, 1);
}

#[test]
fn move_down_counts_only_shown_ports() {
    let mut app = App::new(sample());
    app.filter = "2".to_string();
    app.move_down();
    app.move_down();
    assert_eq!(app.selected, 1);
}

#[test]
fn selected_port_is_among_shown() {
    let mut app = App::new(sample());
    app.selected = 1;
    assert_eq!(app.selected_port().unwrap().port, 5432);
    app.filter = "node".to_string();
    assert!(app.selected_port().is_none());
    app.selected = 0;
    assert_eq!(app.selected_port().unwrap().port, 8080);
}

#[test]
fn refresh_keeps_selection_inside() {
    let mut app = App::new(sample());
    app.selected = 2;
    app.refresh(vec![info(80, 1, "httpd", "httpd")]);
    assert_eq!(app.selected, 0);
    assert_eq!(app.message.as_deref(), Some("リフレッシュしました"));
    app.selected = 5;
    app.refresh(vec![]);
    assert_eq!(app.selected, 5);
    assert!(app.ports.is_empty());
}

#[test]
fn kill_sent_refreshes() {
    let mut app = App::new(sample());
    app.mode = AppMode::Confirm { force: true };
    app.selected = 2;
    app.kill_selected(true, KillOutcome::Sent { ports: vec![info(22, 100, "sshd", "sshd")] });
    assert_eq!(app.mode, AppMode::Normal);
    assert_eq!(app.ports.len(), 1);
    assert_eq!(app.selected, 0);
    assert_eq!(app.message.as_deref(), Some("リフレッシュしました"));
}

#[test]
fn kill_failure_reports_error() {
    let mut app = App::new(sample());
    app.mode = AppMode::Confirm { force: false };
    app.kill_selected(false, KillOutcome::Failed { reason: "Process 100 not found (already exited?)".to_string() });
    assert_eq!(app.mode, AppMode::Normal);
    assert_eq!(app.ports.len(), 3);
    assert_eq!(app.message.as_deref(), Some("エラー: Process 100 not found (already exited?)"));
}

#[test]
fn kill_without_selection_changes_only_mode() {
    let mut app = App::new(sample());
    app.selected = 9;
    app.mode = AppMode::Confirm { force: false };
    app.kill_selected(false, KillOutcome::Sent { ports: vec![] });
    assert_eq!(app.mode, AppMode::Normal);
    assert_eq!(app.ports.len(), 3);
    assert_eq!(app.selected, 9);
    assert!(app.message.is_none());
}

#[test]
fn sent_message_text() {
    assert_eq!(sent_message(300, &"node".to_string(), false), "PID 300 (node) に SIGTERM を送信しました");
    assert_eq!(sent_message(1, &"init".to_string(), true), "PID 1 (init) に SIGKILL を送信しました");
}

#[test]
fn normal_mode_keys() {
    let mut app = App::new(sample());
    assert_eq!(handle_normal(&mut app, Key::Char('j')), Request::Nothing);
    assert_eq!(app.selected, 1);
    handle_normal(&mut app, Key::Down);
    assert_eq!(app.selected, 2);
    handle_normal(&mut app, Key::Char('k'));
    handle_normal(&mut app, Key::Up);
    assert_eq!(app.selected, 0);
    assert_eq!(handle_normal(&mut app, Key::Char('r')), Request::Refresh);
    assert_eq!(handle_normal(&mut app, Key::Char('x')), Request::Nothing);
    assert_eq!(app.mode, AppMode::Normal);
    handle_normal(&mut app, Key::Char('D'));
    assert_eq!(app.mode, AppMode::Confirm { force: true });
    app.mode = AppMode::Normal;
    handle_normal(&mut app, Key::Char('d'));
    assert_eq!(app.mode, AppMode::Confirm { force: false });
    app.mode = AppMode::Normal;
    handle_normal(&mut app, Key::Char('q'));
    assert!(app.should_quit);
}

#[test]
fn kill_key_needs_a_selection() {
    let mut app = App::new(vec![]);
    handle_normal(&mut app, Key::Char('d'));
    assert_eq!(app.mode, AppMode::Normal);
    handle_normal(&mut app, Key::Char('D'));
    assert_eq!(app.mode, AppMode::Normal);
}

#[test]
fn escape_quits_in_normal_mode() {
    let mut app = App::new(sample());
    handle_key(&mut app, Key::Esc);
    assert!(app.should_quit);
}

#[test]
fn slash_starts_a_new_search() {
    let mut app = App::new(sample());
    app.filter = "old".to_string();
    app.selected = 2;
    handle_normal(&mut app, Key::Char('/'));
    assert_eq!(app.mode, AppMode::Search);
    assert_eq!(app.filter, "");
    assert_eq!(app.selected, 0);
}

#[test]
fn search_mode_edits_filter() {
    let mut app = App::new(sample());
    app.mode = AppMode::Search;
    app.selected = 2;
    handle_search(&mut app, Key::Char('n'));
    handle_search(&mut app, Key::Char('o'));
    assert_eq!(app.filter, "no");
    assert_eq!(app.selected, 0);
    handle_search(&mut app, Key::Backspace);
    assert_eq!(app.filter, "n");
    handle_search(&mut app, Key::Backspace);
    handle_search(&mut app, Key::Backspace);
    assert_eq!(app.filter, "");
    handle_search(&mut app, Key::Up);
    assert_eq!(app.mode, AppMode::Search);
    handle_search(&mut app, Key::Char('x'));
    handle_search(&mut app, Key::Enter);
    assert_eq!(app.mode, AppMode::Normal);
    assert_eq!(app.filter, "x");
}

#[test]
fn typing_then_backspace_restores_filter() {
    let mut app = App::new(sample());
    app.mode = AppMode::Search;
    app.filter = "pos".to_string();
    handle_key(&mut app, Key::Char('t'));
    handle_key(&mut app, Key::Backspace);
    assert_eq!(app.filter, "pos");
}

#[test]
fn escape_in_search_clears_filter() {
    let mut app = App::new(sample());
    app.mode = AppMode::Search;
    app.filter = "node".to_string();
    assert_eq!(handle_key(&mut app, Key::Esc), Request::Nothing);
    assert_eq!(app.filter, "");
    assert_eq!(app.mode, AppMode::Normal);
    assert!(!app.should_quit);
}

#[test]
fn confirm_mode_keys() {
    let mut app = App::new(sample());
    app.mode = AppMode::Confirm { force: true };
    assert_eq!(handle_confirm(&mut app, Key::Char('y'), true), Request::Kill { force: true });
    assert_eq!(app.mode, AppMode::Confirm { force: true });
    assert_eq!(handle_key(&mut app, Key::Char('z')), Request::Nothing);
    assert_eq!(app.mode, AppMode::Confirm { force: true });
    assert_eq!(handle_key(&mut app, Key::Char('y')), Request::Kill { force: true });
    handle_confirm(&mut app, Key::Char('n'), true);
    assert_eq!(app.mode, AppMode::Normal);
    app.mode = AppMode::Confirm { force: false };
    handle_key(&mut app, Key::Esc);
    assert_eq!(app.mode, AppMode::Normal);
}

#[test]
fn title_shows_filter() {
    assert_eq!(table_title(&String::new()), " pwatch ");
    assert_eq!(table_title(&"node".to_string()), " pwatch [検索: node] ");
}

#[test]
fn row_cells() {
    let row = port_row(&info(8080, 300, "node", "node server.js"));
    assert_eq!(row, vec!["8080", "tcp", "300", "node", "node server.js"]);
}

#[test]
fn status_bar_texts() {
    assert_eq!(mode_badge(AppMode::Normal), " NORMAL ");
    assert_eq!(mode_badge(AppMode::Search), " SEARCH ");
    assert_eq!(mode_badge(AppMode::Confirm { force: true }), " CONFIRM ");
    assert_eq!(help_text(AppMode::Normal), "q:終了 j/k:移動 d:kill D:force-kill /:検索 r:更新");
    assert_eq!(help_text(AppMode::Search), "Enter:確定 Esc:キャンセル");
    assert_eq!(help_text(AppMode::Confirm { force: false }), "y:実行 n:キャンセル");
    let mut app = App::new(sample());
    assert_eq!(status_message(&app), "");
    app.message = Some("hello".to_string());
    assert_eq!(status_message(&app), "hello");
}

#[test]
fn confirm_dialog_text() {
    let mut app = App::new(sample());
    app.selected = 2;
    assert_eq!(
        confirm_text(&app, true),
        "SIGKILL (強制) を PID 300 (node) に送信しますか?\n\n  y: 実行  n: キャンセル"
    );
    assert_eq!(
        confirm_text(&app, false),
        "SIGTERM を PID 300 (node) に送信しますか?\n\n  y: 実行  n: キャンセル"
    );
    app.selected = 3;
    assert_eq!(confirm_text(&app, false), "ポートが選択されていません");
}

#[test]
fn dialog_is_centred_and_fits() {
    assert_eq!(confirm_dialog_area(80, 24), DialogArea { x: 15, y: 9, width: 50, height: 5 });
    assert_eq!(confirm_dialog_area(30, 10), DialogArea { x: 2, y: 2, width: 26, height: 5 });
    assert_eq!(confirm_dialog_area(3, 3), DialogArea { x: 1, y: 0, width: 0, height: 5 });
    for w in [0u16, 1, 4, 5, 53, 54, 200, u16::MAX] {
        let d = confirm_dialog_area(w, 40);
        assert!(d.x as u32 + d.width as u32 <= w as u32);
        assert!(d.y + d.height <= 40);
    }
}

#[test]
fn settings_from_file() {
    assert!(default_true());
    assert!(!Config::default().show_banner);
    assert_eq!(load_from(ConfigFile::Unreadable), Config { show_banner: true });
    assert_eq!(load_from(ConfigFile::Invalid), Config { show_banner: false });
    assert_eq!(load_from(ConfigFile::Parsed(Config { show_banner: false })), Config { show_banner: false });
}

#[test]
fn commands_compare() {
    let cli = Cli { command: Command::Kill { port: 8080, force: true } };
    assert_eq!(cli.command, Command::Kill { port: 8080, force: true });
    assert_ne!(Command::List { json: false }, Command::Ui);
    assert_ne!(Command::List { json: false }, Command::List { json: true });
}

#[test]
fn confirmed_kill_uses_chosen_signal() {
    let mut app = App::new(sample());
    assert_eq!(handle_key(&mut app, Key::Char('d')), Request::Nothing);
    assert_eq!(handle_key(&mut app, Key::Char('y')), Request::Kill { force: false });
    app.mode = AppMode::Normal;
    assert_eq!(handle_key(&mut app, Key::Char('D')), Request::Nothing);
    assert_eq!(handle_key(&mut app, Key::Char('y')), Request::Kill { force: true });
}

#[test]
fn refresh_key_asks_for_scan() {
    let mut app = App::new(sample());
    assert_eq!(handle_key(&mut app, Key::Char('r')), Request::Refresh);
    assert_eq!(app.mode, AppMode::Normal);
    assert_eq!(app.ports.len(), 3);
}

#[test]
fn kill_target_is_selected_process() {
    let mut app = App::new(sample());
    app.selected = 1;
    assert_eq!(app.kill_target(false), Some((200, Signal::Term)));
    assert_eq!(app.kill_target(true), Some((200, Signal::Kill)));
    app.filter = "node".to_string();
    assert_eq!(app.kill_target(true), None);
    app.selected = 0;
    assert_eq!(app.kill_target(true), Some((300, Signal::Kill)));
}

#[test]
fn longer_filter_never_adds_a_match() {
    let mut app = App::new(sample());
    let mut previous = shown(&app);
    for f in ["s", "ss", "ssh", "sshd", "sshd -", "sshd -X"] {
        app.filter = f.to_string();
        let now = shown(&app);
        assert!(now.iter().all(|p| previous.contains(p)));
        assert!(now.len() <= previous.len());
        previous = now;
    }
    assert!(previous.is_empty());
}
