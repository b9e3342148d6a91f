use anorak::client::api::{grab_request, query_url, reply_outcome, ApiItem};
use anorak::client::args::parse_args;
use anorak::client::menus::{choice_label, chosen_sorts, closed_by_same_click, select_options, Menus, Popover, SelectWhich};
use anorak::client::model::{cmp_one, compute_view, title_filter_set, title_matches, SortKey, SortSpec};
use anorak::client::params::{param_flag, query_param_value};
use anorak::client::screen::{body_for, filters_ready, search_term, toggled_expanded, Screen, Status};
use anorak::client::table::{count_ok, header_label, sort_arrow, Check, GrabCell, GrabState, Table};
use anorak::text::{lex_order_exec, trim_exec, usize_text};
use std::cmp::Ordering;

fn row(title: &str, seeders: u32, size: u64, date: Option<i64>, magnet: &str, added: bool) -> ApiItem {
    ApiItem {
        title: title.into(),
        guid: String::new(),
        magnet: magnet.into(),
        category: "5000".into(),
        seeders,
        peers: 0,
        size,
        size_format: String::new(),
        date,
        date_format: String::new(),
        already_added: added,
    }
}

#[test]
fn labels_of_the_options() {
    let labels: Vec<&str> = SortSpec::options().iter().map(|s| s.label()).collect();
    assert_eq!(
        labels,
        vec!["Most seeds", "Least seeds", "Largest", "Smallest", "Newest", "Oldest", "Title A–Z", "Title Z–A"]
    );
    assert_eq!(SortSpec::default_order(), SortSpec { key: SortKey::Seeders, asc: false });
    assert_eq!(SortSpec::default_order().label(), "Most seeds");
}

#[test]
fn cmp_one_by_each_key() {
    let a = row("a", 1, 10, None, "m", false);
    let b = row("b", 2, 5, Some(-3), "m", false);
    assert_eq!(cmp_one(&a, "a", &b, "b", SortSpec { key: SortKey::Seeders, asc: true }), Ordering::Less);
    assert_eq!(cmp_one(&a, "a", &b, "b", SortSpec { key: SortKey::Seeders, asc: false }), Ordering::Greater);
    assert_eq!(cmp_one(&a, "a", &b, "b", SortSpec { key: SortKey::Size, asc: true }), Ordering::Greater);
    assert_eq!(cmp_one(&a, "a", &b, "b", SortSpec { key: SortKey::Date, asc: true }), Ordering::Greater);
    assert_eq!(cmp_one(&a, "ab", &b, "a", SortSpec { key: SortKey::Name, asc: true }), Ordering::Greater);
    assert_eq!(cmp_one(&a, "x", &b, "x", SortSpec { key: SortKey::Name, asc: false }), Ordering::Equal);
}

#[test]
fn view_with_secondary_and_missing_dates() {
    let items = vec![
        row("a", 5, 1, None, "m", false),
        row("b", 5, 1, Some(7), "m", false),
        row("c", 5, 2, Some(-1), "m", false),
    ];
    let names: Vec<String> = items.iter().map(|i| i.title.clone()).collect();
    let keep = vec![true, true, true];
    let date_desc = SortSpec { key: SortKey::Date, asc: false };
    let size_asc = SortSpec { key: SortKey::Size, asc: true };
    assert_eq!(compute_view(&items, &names, &keep, size_asc, Some(date_desc)), vec![1, 0, 2]);
    assert_eq!(compute_view(&items, &names, &keep, date_desc, None), vec![1, 0, 2]);
    assert_eq!(compute_view(&items, &names, &[false, true, false], date_desc, None), vec![1]);
}

#[test]
fn title_filter_is_trimmed_and_lowercased() {
    assert!(title_matches("  1080P ", "show 1080p"));
    assert!(!title_matches("720", "show 1080p"));
    assert!(title_matches("   ", "anything"));
    assert!(title_matches("ÉTÉ", "l'été"));
}

#[test]
fn title_filter_set_ignores_blanks() {
    assert!(!title_filter_set(""));
    assert!(!title_filter_set(" \t\n"));
    assert!(title_filter_set(" x "));
}

#[test]
fn grab_request_form() {
    let r = grab_request("http://h:9341/", "magnet:?x", "5000");
    assert_eq!(r.url, "http://h:9341/send-to-rqbit/");
    assert_eq!(
        r.form,
        vec![("magnet".to_string(), "magnet:?x".to_string()), ("category".to_string(), "5000".to_string())]
    );
    let r = grab_request("http://h", "m", "");
    assert_eq!(r.form, vec![("magnet".to_string(), "m".to_string())]);
    assert_eq!(query_url("http://h//"), "http://h/api/query");
}

#[test]
fn reply_outcome_message() {
    assert_eq!(reply_outcome(true, "200 OK", "x"), Ok(()));
    assert_eq!(
        reply_outcome(false, "502 Bad Gateway", "  upstream down\n"),
        Err("server returned 502 Bad Gateway: upstream down".to_string())
    );
}

#[test]
fn query_params() {
    let s = "?server=http%3A%2F%2Fh&bench=1&term=one+punch&flag&x=a=b";
    let v = query_param_value(s, "term").unwrap();
    assert_eq!(v.raw, "one+punch");
    assert_eq!(v.spaced, "one punch");
    assert_eq!(query_param_value(s, "server").unwrap().raw, "http%3A%2F%2Fh");
    assert_eq!(query_param_value(s, "flag").unwrap().raw, "");
    assert_eq!(query_param_value(s, "x").unwrap().raw, "a=b");
    assert!(query_param_value(s, "missing").is_none());
    assert_eq!(query_param_value("??a=1&a=2", "a").unwrap().raw, "1");
    assert!(query_param_value("", "a").is_none());
    assert!(query_param_value("", "").is_some());
    assert!(param_flag(Some("1")));
    assert!(param_flag(Some("")));
    assert!(!param_flag(Some("0")));
    assert!(!param_flag(None));
}

fn loaded() -> Table {
    let mut t = Table::new();
    t.load(vec![
        row("Alpha 1080P", 5, 100, Some(1), "magnet:?a", false),
        row("beta", 50, 10, Some(2), "magnet:?b", false),
        row("Gamma", 7, 1000, Some(3), "", false),
        row("delta", 1, 1, Some(4), "magnet:?d", true),
    ]);
    t.recompute(&[true, true, true, true]);
    t
}

#[test]
fn table_load_and_view() {
    let t = loaded();
    assert_eq!(t.names_lower()[0], "alpha 1080p");
    assert_eq!(t.view_rows(), &vec![1, 2, 0, 3]);
    assert_eq!(t.shown_message(), "4 shown / 4");
    assert_eq!(t.selection_state(), (0, 2));
    assert_eq!(t.header_check(), Check::Off);
    assert_eq!(t.toolbar_message(), "0 selected");
    assert!(!t.sort_active());
}

#[test]
fn table_select_all_and_rows() {
    let mut t = loaded();
    t.toggle_select_all();
    assert_eq!(t.selection_state(), (2, 2));
    assert_eq!(t.header_check(), Check::On);
    t.toggle_row(0);
    assert_eq!(t.selection_state(), (1, 2));
    assert_eq!(t.header_check(), Check::Mixed);
    t.toggle_row(2);
    t.toggle_row(3);
    assert_eq!(t.selection_state(), (1, 2));
    t.toggle_select_all();
    assert_eq!(t.selection_state(), (2, 2));
    t.toggle_select_all();
    assert_eq!(t.selection_state(), (0, 2));
    t.toggle_row(1);
    t.recompute(&[true, false, true, true]);
    assert_eq!(t.selection_state(), (0, 1));
    assert!(!t.marks()[1].selected);
    assert_eq!(t.shown_message(), "3 shown / 4");
}

#[test]
fn table_grab_one() {
    let mut t = loaded();
    assert_eq!(t.begin_grab(0), Some(("magnet:?a".to_string(), "5000".to_string())));
    assert!(matches!(t.marks()[0].grab, GrabState::Busy));
    assert_eq!(t.begin_grab(0), None);
    assert_eq!(t.begin_grab(2), None);
    assert_eq!(t.begin_grab(9), None);
    t.finish_grab(0, Err("server returned 500".into()));
    assert!(matches!(&t.marks()[0].grab, GrabState::Failed(e) if e == "server returned 500"));
    assert!(t.begin_grab(0).is_some());
    t.toggle_row(0);
    t.finish_grab(0, Ok(()));
    assert!(matches!(t.marks()[0].grab, GrabState::Done));
    assert!(!t.marks()[0].selected);
    assert!(!t.is_selectable(0));
    assert_eq!(t.begin_grab(0), None);
}

#[test]
fn table_grab_selected() {
    let mut t = loaded();
    assert!(t.begin_grab_selected().is_empty());
    t.toggle_select_all();
    let jobs = t.begin_grab_selected();
    assert_eq!(
        jobs,
        vec![(1, "magnet:?b".to_string(), "5000".to_string()), (0, "magnet:?a".to_string(), "5000".to_string())]
    );
    assert_eq!(t.toolbar_message(), "Grabbing…");
    assert!(t.begin_grab_selected().is_empty());
    t.finish_grab(1, Ok(()));
    t.finish_grab(0, Ok(()));
    t.finish_grab_selected(2);
    assert_eq!(t.toolbar_message(), "Grabbed 2");
    t.clear_message();
    assert_eq!(t.toolbar_message(), "0 selected");
    t.finish_grab_selected(0);
    assert_eq!(t.toolbar_message(), "0 selected");
}

#[test]
fn table_header_sort() {
    let mut t = loaded();
    let keep = [true, true, true, true];
    t.sort_by_header(SortKey::Name, &keep);
    assert_eq!(t.primary(), SortSpec { key: SortKey::Name, asc: false });
    assert_eq!(t.view_rows(), &vec![2, 3, 1, 0]);
    t.sort_by_header(SortKey::Name, &keep);
    assert_eq!(t.primary(), SortSpec { key: SortKey::Name, asc: true });
    assert_eq!(t.view_rows(), &vec![0, 1, 3, 2]);
    assert!(t.sort_active());
    t.set_sort(SortSpec::default_order(), Some(SortSpec { key: SortKey::Size, asc: true }), &keep);
    assert_eq!(t.secondary(), Some(SortSpec { key: SortKey::Size, asc: true }));
    assert!(t.sort_active());
    assert_eq!(sort_arrow(SortKey::Name, SortSpec { key: SortKey::Name, asc: true }), " ↑");
    assert_eq!(sort_arrow(SortKey::Name, SortSpec { key: SortKey::Name, asc: false }), " ↓");
    assert_eq!(sort_arrow(SortKey::Size, SortSpec { key: SortKey::Name, asc: false }), "");
}

#[test]
fn menus_toggle() {
    let mut m = Menus::closed();
    m.toggle_popover(Popover::Filter, false);
    assert_eq!(m.popover, Some(Popover::Filter));
    m.toggle_popover(Popover::Sort, false);
    assert_eq!(m.popover, Some(Popover::Sort));
    m.toggle_popover(Popover::Sort, true);
    assert_eq!(m.popover, Some(Popover::Sort));
    m.toggle_popover(Popover::Sort, false);
    assert_eq!(m.popover, None);
    assert!(closed_by_same_click(Popover::Sort, Popover::Sort, 599));
    assert!(!closed_by_same_click(Popover::Sort, Popover::Sort, 600));
    assert!(!closed_by_same_click(Popover::Filter, Popover::Sort, 0));
}

#[test]
fn whitespace_is_std_whitespace() {
    let mut n = 0;
    for u in 0u32..=0x10FFFF {
        if let Some(c) = char::from_u32(u) {
            let trimmed = trim_exec(&[c]).is_empty();
            assert_eq!(trimmed, c.is_whitespace(), "U+{u:04X}");
            if trimmed {
                n += 1;
            }
        }
    }
    assert_eq!(n, 25);
}

#[test]
fn text_helpers() {
    let a: Vec<char> = "abc".chars().collect();
    let b: Vec<char> = "abd".chars().collect();
    assert_eq!(lex_order_exec(&a, &b), -1);
    assert_eq!(lex_order_exec(&b, &a), 1);
    assert_eq!(lex_order_exec(&a[..2], &a), -1);
    assert_eq!(lex_order_exec(&a, &a), 0);
    assert_eq!(usize_text(0).iter().collect::<String>(), "0");
    assert_eq!(usize_text(1907).iter().collect::<String>(), "1907");
    assert_eq!(usize_text(usize::MAX).iter().collect::<String>(), usize::MAX.to_string());
}

#[test]
fn table_row_cells() {
    let mut t = loaded();
    assert_eq!(t.row_check(0), Some(Check::Off));
    assert_eq!(t.row_check(2), None);
    assert_eq!(t.row_check(3), None);
    t.toggle_row(1);
    assert_eq!(t.row_check(1), Some(Check::On));
    assert!(matches!(t.grab_cell(0), GrabCell::Grab));
    assert!(matches!(t.grab_cell(2), GrabCell::NoLink));
    assert!(matches!(t.grab_cell(3), GrabCell::Done));
    t.begin_grab(0);
    assert!(matches!(t.grab_cell(0), GrabCell::Busy));
    t.finish_grab(0, Err("server returned 502".into()));
    assert!(matches!(t.grab_cell(0), GrabCell::Retry(e) if e == "server returned 502"));
    t.begin_grab(1);
    t.finish_grab(1, Ok(()));
    assert!(matches!(t.grab_cell(1), GrabCell::Done));
    assert_eq!(t.row_check(1), None);
}

#[test]
fn header_labels() {
    let p = SortSpec { key: SortKey::Size, asc: true };
    assert_eq!(header_label(SortKey::Size, p), "Size ↑");
    assert_eq!(header_label(SortKey::Name, p), "Name");
    assert_eq!(header_label(SortKey::Seeders, SortSpec::default_order()), "S/P ↓");
    assert_eq!(header_label(SortKey::Date, SortSpec::default_order()), "Date");
}

#[test]
fn window_body() {
    let b = body_for(&Status::Error("request to x failed".into()), 3);
    assert_eq!(b.error.as_deref(), Some("Search failed: request to x failed"));
    assert!(!b.table && !b.searching && !b.no_results && !b.overlay);
    let b = body_for(&Status::Loading, 0);
    assert!(b.searching && !b.table && !b.overlay && b.error.is_none());
    let b = body_for(&Status::Loading, 5);
    assert!(!b.searching && b.table && b.overlay);
    let b = body_for(&Status::Loaded, 0);
    assert!(b.no_results && !b.table);
    let b = body_for(&Status::Loaded, 2);
    assert!(b.table && !b.overlay && !b.no_results);
    let b = body_for(&Status::Idle, 2);
    assert!(!b.table && !b.searching && !b.no_results && !b.overlay && b.error.is_none());
    assert!(filters_ready(&Status::Loaded, 1));
    assert!(!filters_ready(&Status::Loaded, 0));
    assert!(!filters_ready(&Status::Loading, 4));
}

#[test]
fn search_terms_and_expansion() {
    assert_eq!(search_term("  one punch \n"), Some("one punch".to_string()));
    assert_eq!(search_term(" \t "), None);
    assert_eq!(search_term(""), None);
    assert_eq!(toggled_expanded(None, 3), Some(3));
    assert_eq!(toggled_expanded(Some(3), 3), None);
    assert_eq!(toggled_expanded(Some(2), 3), Some(3));
}

#[test]
fn sort_menus() {
    let mut m = Menus::closed();
    m.toggle_popover(Popover::Sort, false);
    m.toggle_select(SelectWhich::Primary);
    assert_eq!(m.open_select, Some(SelectWhich::Primary));
    m.toggle_select(SelectWhich::Secondary);
    assert_eq!(m.open_select, Some(SelectWhich::Secondary));
    m.toggle_select(SelectWhich::Secondary);
    assert_eq!(m.open_select, None);
    assert_eq!(m.popover, Some(Popover::Sort));
    assert!(!m.close_on_outside_click(Popover::Filter));
    assert_eq!(m.popover, Some(Popover::Sort));
    m.toggle_select(SelectWhich::Primary);
    assert!(m.close_on_outside_click(Popover::Sort));
    assert_eq!(m, Menus::closed());
    let primary = select_options(SelectWhich::Primary);
    assert_eq!(primary.len(), 8);
    assert_eq!(primary[0], Some(SortSpec::default_order()));
    let secondary = select_options(SelectWhich::Secondary);
    assert_eq!(secondary.len(), 9);
    assert_eq!(secondary[0], None);
    assert_eq!(secondary[7], Some(SortSpec { key: SortKey::Name, asc: true }));
    let size = SortSpec { key: SortKey::Size, asc: false };
    let date = SortSpec { key: SortKey::Date, asc: true };
    assert_eq!(chosen_sorts(SelectWhich::Primary, None, size, Some(date)), (SortSpec::default_order(), Some(date)));
    assert_eq!(chosen_sorts(SelectWhich::Primary, Some(date), size, None), (date, None));
    assert_eq!(chosen_sorts(SelectWhich::Secondary, None, size, Some(date)), (size, None));
    assert_eq!(choice_label(None), "None");
    assert_eq!(choice_label(Some(size)), "Largest");
}

fn strings(v: &[&str]) -> Vec<String> {
    v.iter().map(|s| s.to_string()).collect()
}

#[test]
fn command_line() {
    let a = parse_args(None, &[]);
    assert_eq!(a.server, "http://192.168.0.101:9341");
    assert_eq!(a.bench_arg, None);
    assert_eq!(a.bench_term, "one punch");
    assert!(a.sizes.is_empty() && !a.selftest && !a.help && a.ignored.is_empty());

    let a = parse_args(Some("http://env:1///".into()), &strings(&["--size", "800x600", "--size", "big", "-q", "--bench-term", "dune"]));
    assert_eq!(a.server, "http://env:1");
    assert_eq!(a.sizes, vec![("800".to_string(), "600".to_string())]);
    assert_eq!(a.ignored, strings(&["-q"]));
    assert_eq!(a.bench_term, "dune");

    let a = parse_args(None, &strings(&["https://h:9341/", "--bench", "log.jsonl", "-s", "http://other/"]));
    assert_eq!(a.server, "http://other");
    assert_eq!(a.bench_arg, Some(Some("log.jsonl".to_string())));

    let a = parse_args(None, &strings(&["--selftest"]));
    assert!(a.selftest);
    assert_eq!(a.bench_arg, Some(None));

    let a = parse_args(None, &strings(&["x", "--help", "y"]));
    assert!(a.help);
    assert_eq!(a.ignored, strings(&["x"]));

    let a = parse_args(None, &strings(&["--size", "1x2x3", "--server"]));
    assert_eq!(a.sizes, vec![("1".to_string(), "2x3".to_string())]);
    assert_eq!(a.server, "http://192.168.0.101:9341");
}

#[test]
fn grab_selected_button_and_count() {
    let mut t = loaded();
    assert!(!t.grab_selected_enabled());
    t.toggle_row(0);
    assert!(t.grab_selected_enabled());
    assert!(!t.grab_selected_busy());
    let jobs = t.begin_grab_selected();
    assert_eq!(jobs.len(), 1);
    assert!(t.grab_selected_busy());
    assert!(!t.grab_selected_enabled());
    let results: Vec<Result<(), String>> = vec![Ok(()), Err("server returned 500".into()), Ok(())];
    assert_eq!(count_ok(&results), 2);
    assert_eq!(count_ok(&[]), 0);
    t.finish_grab(0, Ok(()));
    t.finish_grab_selected(count_ok(&results[..1]));
    assert!(!t.grab_selected_busy());
    assert_eq!(t.toolbar_message(), "Grabbed 1");
}

#[test]
fn screen_transitions() {
    let mut screen = Screen::new();
    let mut menus = Menus::closed();
    let mut t = loaded();
    assert!(matches!(screen.status, Status::Idle));
    menus.toggle_popover(Popover::Filter, false);
    assert_eq!(screen.submit("   ", &mut menus, &mut t), None);
    assert!(matches!(screen.status, Status::Idle));
    assert_eq!(menus.popover, Some(Popover::Filter));
    t.toggle_row(0);
    t.begin_grab_selected();
    t.finish_grab(0, Ok(()));
    t.finish_grab_selected(1);
    assert_eq!(t.toolbar_message(), "Grabbed 1");
    assert_eq!(screen.submit(" dune ", &mut menus, &mut t), Some("dune".to_string()));
    assert!(matches!(screen.status, Status::Loading));
    assert_eq!(menus, Menus::closed());
    assert_eq!(t.toolbar_message(), "0 selected");
    screen.toggle_expanded(2);
    assert_eq!(screen.expanded, Some(2));
    screen.apply_results(Err("request failed".into()), &mut t);
    assert!(matches!(&screen.status, Status::Error(e) if e == "request failed"));
    assert_eq!(screen.expanded, Some(2));
    assert_eq!(t.items().len(), 4);
    screen.apply_results(Ok(vec![row("Dune", 3, 1, None, "magnet:?d", false)]), &mut t);
    assert!(matches!(screen.status, Status::Loaded));
    assert_eq!(screen.expanded, None);
    assert_eq!(t.items().len(), 1);
    assert_eq!(t.names_lower()[0], "dune");
    assert!(t.view_rows().is_empty());
    screen.toggle_expanded(0);
    screen.toggle_expanded(0);
    assert_eq!(screen.expanded, None);
}

#[test]
fn blank_title_filter_keeps_every_row() {
    assert!(title_matches("", ""));
    assert!(title_matches(" \t", "anything"));
}
