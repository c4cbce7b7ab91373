use bar_tray::menu::{
    entry_line, find_label, has_entries, menu_input, parse_command, read_line, read_output,
    read_pick, MenuNode,
};
use bar_tray::tray::{DmenuLoop, DmenuStep};
use bar_tray::tray_menu::{rofi, MenuLoop, MenuStep};

fn leaf(id: i32, label: &str) -> MenuNode {
    MenuNode {
        id,
        label: label.to_owned(),
        enabled: true,
        visible: true,
        is_submenu: false,
        children: vec![],
    }
}

fn submenu(id: i32, label: &str, children: Vec<MenuNode>) -> MenuNode {
    MenuNode { is_submenu: true, children, ..leaf(id, label) }
}

fn menu() -> Vec<MenuNode> {
    vec![
        leaf(1, "Open"),
        leaf(2, ""),
        MenuNode { visible: false, ..leaf(3, "Quit") },
        MenuNode { enabled: false, ..leaf(4, "Save") },
        submenu(5, "More", vec![leaf(6, "About"), submenu(7, "Deep", vec![leaf(8, "Bottom")])]),
        leaf(9, "Quit"),
        leaf(10, "Open"),
        submenu(11, "Empty", vec![]),
        submenu(12, "Hidden", vec![leaf(13, "")]),
    ]
}

fn fetched(walk: &mut MenuLoop, entries: Vec<MenuNode>) -> MenuStep {
    walk.fetched::<u8>(Ok(entries)).unwrap()
}

fn pick(label: &str) -> Option<String> {
    Some(label.to_owned())
}

fn input(step: DmenuStep) -> String {
    match step {
        DmenuStep::Show { input, .. } => input,
        other => panic!("{other:?}"),
    }
}

fn start() -> (DmenuLoop, DmenuStep) {
    DmenuLoop::new("dmenu -i -l 10".to_owned(), menu())
}

#[test]
fn a_menu_is_offered_line_by_line() {
    assert_eq!(menu_input(&menu()), "Open\n(Save)\nMore\nQuit\nOpen\nEmpty\nHidden\n");
    assert_eq!(menu_input(&vec![]), "");
    assert_eq!(entry_line(&leaf(1, "Open")), "Open");
    assert_eq!(entry_line(&MenuNode { enabled: false, ..leaf(1, "Open") }), "(Open)");
    assert!(has_entries(&menu()));
    assert!(!has_entries(&vec![leaf(2, ""), MenuNode { visible: false, ..leaf(3, "x") }]));
}

#[test]
fn the_first_visible_entry_with_the_label_is_found() {
    assert_eq!(find_label(&menu(), &"Open".to_owned()), Some(0));
    assert_eq!(find_label(&menu(), &"Quit".to_owned()), Some(5));
    assert_eq!(find_label(&menu(), &"Save".to_owned()), Some(3));
    assert_eq!(find_label(&menu(), &"(Save)".to_owned()), None);
    assert_eq!(find_label(&menu(), &"".to_owned()), None);
    assert_eq!(find_label(&menu(), &"open".to_owned()), None);
}

#[test]
fn a_command_is_a_program_with_arguments() {
    let launch = parse_command("  rofi -dmenu\t-p x ").unwrap();
    assert_eq!(launch.program, "rofi");
    assert_eq!(launch.args, ["-dmenu", "-p", "x"]);
    let launch = parse_command("dmenu").unwrap();
    assert!(launch.args.is_empty());
    assert!(parse_command("").is_none());
    assert!(parse_command(" \n").is_none());
}

#[test]
fn output_is_read_as_a_label_or_without_white_space_around_it() {
    let nodes = menu();
    assert_eq!(read_pick(&nodes, " Open file \n"), pick("Open file"));
    assert_eq!(read_pick(&nodes, "\n"), None);
    assert_eq!(read_output(&nodes, true, b"Open\n"), pick("Open"));
    assert_eq!(read_output(&nodes, true, b"Quit\r\n"), pick("Quit"));
    assert_eq!(read_output(&nodes, true, b"Quit \n"), pick("Quit"));
    assert_eq!(read_output(&nodes, true, b"\nQuit\n"), pick("Quit"));
    let text = "  Gr\u{f6}\u{df}e ".as_bytes();
    assert_eq!(read_output(&nodes, true, text), pick("Gr\u{f6}\u{df}e"));
    assert_eq!(read_output(&nodes, true, b"a\xffb\n"), pick("a\u{fffd}b"));
    assert_eq!(read_output(&nodes, true, b"  \n"), None);
    assert_eq!(read_output(&nodes, true, b""), None);
    assert_eq!(read_output(&nodes, false, b"Open\n"), None);
}

#[test]
fn a_line_counts_only_after_success() {
    let nodes = vec![leaf(1, " Open ")];
    assert_eq!(read_line(&nodes, true, Some("Open\n")), pick("Open"));
    assert_eq!(read_line(&nodes, true, Some(" Open \n")), pick(" Open "));
    assert_eq!(read_line(&nodes, true, Some(" Quit \n")), pick("Quit"));
    assert_eq!(read_line(&nodes, false, Some("Open\n")), None);
    assert_eq!(read_line(&nodes, true, None), None);
    assert_eq!(read_line(&nodes, true, Some("")), None);
}

#[test]
fn picking_a_line_finds_its_entry() {
    let nodes = menu();
    let line = format!("{}\n", entry_line(&nodes[4]));
    let label = read_output(&nodes, true, line.as_bytes()).unwrap();
    assert_eq!(find_label(&nodes, &label), Some(4));
}

#[test]
fn picking_a_padded_line_finds_its_entry() {
    let nodes = vec![leaf(1, "Quit"), leaf(2, " Quit"), leaf(3, "Quit ")];
    for (i, node) in nodes.iter().enumerate() {
        let line = format!("{}\n", entry_line(node));
        let label = read_output(&nodes, true, line.as_bytes()).unwrap();
        assert_eq!(find_label(&nodes, &label), Some(i));
    }
}

#[test]
fn padding_is_forgiven() {
    let hidden = MenuNode { visible: false, ..leaf(3, "Quit ") };
    let nodes = vec![leaf(1, "Quit"), leaf(2, " Quit"), hidden];
    for (output, i) in [("  Quit\n", 0), ("Quit \n", 0), ("\nQuit\n", 0), (" Quit\n", 1)] {
        let label = read_output(&nodes, true, output.as_bytes()).unwrap();
        assert_eq!(find_label(&nodes, &label), Some(i));
    }
}

#[test]
fn picking_a_disabled_line_finds_nothing() {
    let nodes = menu();
    let line = format!("{}\n", entry_line(&nodes[3]));
    let label = read_output(&nodes, true, line.as_bytes()).unwrap();
    assert_eq!(label, "(Save)");
    assert_eq!(find_label(&nodes, &label), None);
}

#[test]
fn a_leaf_is_clicked() {
    let (mut walk, step) = start();
    match step {
        DmenuStep::Show { launch, input } => {
            assert_eq!(launch.program, "dmenu");
            assert_eq!(launch.args, ["-i", "-l", "10"]);
            assert_eq!(input, menu_input(&menu()));
        }
        other => panic!("{other:?}"),
    }
    assert_eq!(walk.offered().len(), menu().len());
    assert!(matches!(walk.picked(pick("Quit")), DmenuStep::Click(9)));
}

#[test]
fn submenus_are_walked_to_the_bottom() {
    let (mut walk, _) = start();
    assert_eq!(input(walk.picked(pick("More"))), "About\nDeep\n");
    assert_eq!(input(walk.picked(pick("Deep"))), "Bottom\n");
    assert_eq!(walk.offered()[0].label, "Bottom");
    assert!(matches!(walk.picked(pick("Bottom")), DmenuStep::Click(8)));
}

#[test]
fn a_submenu_without_entries_is_clicked() {
    let (mut walk, _) = start();
    assert!(matches!(walk.picked(pick("Empty")), DmenuStep::Click(11)));
}

#[test]
fn a_submenu_with_nothing_to_offer_ends_the_walk() {
    let (mut walk, _) = start();
    assert!(matches!(walk.picked(pick("Hidden")), DmenuStep::Done));
}

#[test]
fn cancelling_and_unknown_labels_end_the_walk() {
    assert!(matches!(start().0.picked(None), DmenuStep::Done));
    assert!(matches!(start().0.picked(pick("(Save)")), DmenuStep::Done));
    assert!(matches!(start().0.picked(pick("nothing")), DmenuStep::Done));
}

#[test]
fn a_disabled_entry_can_still_be_named() {
    assert!(matches!(start().0.picked(pick("Save")), DmenuStep::Click(4)));
}

#[test]
fn nothing_is_shown_without_entries_or_program() {
    assert!(matches!(DmenuLoop::new("dmenu".to_owned(), vec![]).1, DmenuStep::Done));
    assert!(matches!(DmenuLoop::new("dmenu".to_owned(), vec![leaf(1, "")]).1, DmenuStep::Done));
    assert!(matches!(DmenuLoop::new("  ".to_owned(), menu()).1, DmenuStep::Done));
}

#[test]
fn rofi_is_run_with_its_arguments() {
    let launch = rofi();
    assert_eq!(launch.program, "rofi");
    assert_eq!(
        launch.args,
        ["-dmenu", "-p", "Tray", "-theme-str", "listview { lines: 15; }"]
    );
}

#[test]
fn fetched_menus_are_walked_by_id() {
    let (mut walk, step) = MenuLoop::new();
    assert!(matches!(step, MenuStep::Fetch(None)));
    match fetched(&mut walk, menu()) {
        MenuStep::Show { launch, input } => {
            assert_eq!(launch.program, "rofi");
            assert_eq!(input, menu_input(&menu()));
        }
        other => panic!("{other:?}"),
    }
    assert!(matches!(walk.picked(pick("Empty")), MenuStep::Fetch(Some(11))));
    assert!(matches!(fetched(&mut walk, vec![leaf(-2, "Odd")]), MenuStep::Show { .. }));
    assert!(matches!(walk.picked(pick("Odd")), MenuStep::Activate(0xffff_fffe)));
}

#[test]
fn fetched_menus_end_like_others() {
    let (mut walk, _) = MenuLoop::new();
    assert!(matches!(fetched(&mut walk, vec![]), MenuStep::Done));
    assert!(matches!(fetched(&mut walk, vec![leaf(1, "")]), MenuStep::Done));
    let _ = fetched(&mut walk, menu());
    assert_eq!(walk.offered().len(), menu().len());
    assert!(matches!(walk.picked(None), MenuStep::Done));
    assert!(matches!(walk.picked(pick("nothing")), MenuStep::Done));
    assert!(matches!(walk.picked(pick("Quit")), MenuStep::Activate(9)));
}

fn dmenu_walk(picks: &[Option<&str>]) -> Vec<DmenuStep> {
    let (mut walk, step) = start();
    let mut steps = vec![step];
    for pick in picks {
        if !matches!(steps.last(), Some(DmenuStep::Show { .. })) {
            break;
        }
        steps.push(walk.picked(pick.map(str::to_owned)));
    }
    steps
}

#[test]
fn a_click_comes_last() {
    let steps = dmenu_walk(&[Some("More"), Some("Deep"), Some("Bottom"), Some("Quit")]);
    assert_eq!(steps.len(), 4);
    assert!(steps[..3].iter().all(|s| matches!(s, DmenuStep::Show { .. })));
    assert!(matches!(steps[3], DmenuStep::Click(8)));
    for end in [None, Some("Open")] {
        let steps = dmenu_walk(&[Some("More"), end, Some("About")]);
        assert_eq!(steps.len(), 3);
        assert!(matches!(steps[2], DmenuStep::Done));
    }
}

#[test]
fn a_walk_fails_only_with_its_click() {
    assert_eq!(start().0.finish::<u8>(None), Ok(()));
    assert_eq!(start().0.finish::<u8>(Some(Ok(()))), Ok(()));
    assert_eq!(start().0.finish(Some(Err(7u8))), Err(7));
}

/// What a walk asks for, and how it comes out, if all that it asks for is there.
fn rofi_walk(
    rounds: Vec<(Result<Vec<MenuNode>, u8>, Option<&str>)>,
    activated: Result<(), u8>,
) -> (Vec<MenuStep>, Option<Result<(), u8>>) {
    let (mut walk, step) = MenuLoop::new();
    let mut steps = vec![step];
    for (entries, label) in rounds {
        if !matches!(steps.last(), Some(MenuStep::Fetch(_))) {
            break;
        }
        match walk.fetched(entries) {
            Ok(step) => steps.push(step),
            Err(error) => return (steps, Some(Err(error))),
        }
        if matches!(steps.last(), Some(MenuStep::Show { .. })) {
            steps.push(walk.picked(label.map(str::to_owned)));
        }
    }
    let told = match steps.last() {
        Some(MenuStep::Done) => None,
        Some(MenuStep::Activate(_)) => Some(activated),
        _ => return (steps, None),
    };
    (steps, Some(walk.finish(told)))
}

fn below() -> Vec<MenuNode> {
    vec![leaf(20, ""), leaf(21, "Go"), leaf(22, "Go")]
}

#[test]
fn an_activation_comes_last() {
    for activated in [Ok(()), Err(3)] {
        let (steps, result) = rofi_walk(
            vec![
                (Ok(menu()), Some("Empty")),
                (Ok(below()), Some("Go")),
                (Ok(menu()), Some("Quit")),
            ],
            activated,
        );
        assert_eq!(steps.len(), 5);
        assert!(matches!(steps[2], MenuStep::Fetch(Some(11))));
        assert!(matches!(steps[4], MenuStep::Activate(21)));
        assert_eq!(result, Some(activated));
    }
    for end in [None, Some("Quit")] {
        let (steps, result) = rofi_walk(
            vec![(Ok(menu()), Some("More")), (Ok(below()), end), (Ok(menu()), Some("Quit"))],
            Err(3),
        );
        assert_eq!(steps.len(), 5);
        assert!(matches!(steps[4], MenuStep::Done));
        assert_eq!(result, Some(Ok(())));
    }
    let (steps, result) =
        rofi_walk(vec![(Ok(menu()), Some("More")), (Ok(vec![]), Some("Quit"))], Err(3));
    assert_eq!(steps.len(), 4);
    assert!(matches!(steps[3], MenuStep::Done));
    assert_eq!(result, Some(Ok(())));
}

#[test]
fn a_failed_fetch_ends_the_walk_with_its_error() {
    let (steps, result) = rofi_walk(vec![(Err(7), Some("Quit")), (Ok(menu()), None)], Ok(()));
    assert_eq!(steps.len(), 1);
    assert_eq!(result, Some(Err(7)));
    let (steps, result) =
        rofi_walk(vec![(Ok(menu()), Some("More")), (Err(8), Some("Go")), (Err(9), None)], Ok(()));
    assert_eq!(steps.len(), 3);
    assert!(matches!(steps[2], MenuStep::Fetch(Some(5))));
    assert_eq!(result, Some(Err(8)));
}
