use chess_menu::menu::{
    card_click, move_top_selection, pop_menu, root_items, try_enter_submenu, ArrowId, BackOutcome, CardClick,
    EnterOutcome, MenuItem, MenuState,
};

fn leaf(id: &'static str) -> MenuItem {
    MenuItem { id, label: id, children: None }
}

fn three() -> Vec<MenuItem> {
    vec![leaf("a"), leaf("b"), leaf("c")]
}

#[test]
fn new_menu_starts_at_first_item() {
    let m = MenuState::new(three());
    assert_eq!(m.selected, 0);
    assert!(!m.animating);
    assert_eq!(m.selected_item().map(|i| i.id), Some("a"));
}

#[test]
fn selection_slides_and_is_clamped() {
    let mut m = MenuState::new(three());
    assert!(m.move_selection(5));
    assert_eq!(m.anim_from, 0);
    assert_eq!(m.anim_to, 2);
    assert!(m.animating);
    assert_eq!(m.selected, 0);
    assert!(!m.move_selection(-1));
    m.finish_animation();
    assert_eq!(m.selected, 2);
    assert!(!m.animating);
    assert!(!m.move_selection(1));
    assert!(m.move_selection(-7));
    assert_eq!(m.anim_to, 0);
}

#[test]
fn empty_menu_does_not_move() {
    let mut m = MenuState::new(vec![]);
    assert!(!m.move_selection(1));
    assert!(m.selected_item().is_none());
}

#[test]
fn cloning_copies_the_subtree() {
    let tree = MenuItem {
        id: "games",
        label: "Games",
        children: Some(vec![MenuItem { id: "chess", label: "Chess", children: Some(vec![leaf("x")]) }]),
    };
    let copy = tree.clone();
    assert_eq!(copy.id, "games");
    let kids = copy.children.unwrap();
    assert_eq!(kids.len(), 1);
    assert_eq!(kids[0].label, "Chess");
    assert_eq!(kids[0].children.as_ref().unwrap()[0].id, "x");
}

#[test]
fn arrows_compare() {
    assert_eq!(ArrowId::Left, ArrowId::Left);
    assert_ne!(ArrowId::Left, ArrowId::Back);
}

fn root() -> Vec<MenuItem> {
    vec![
        MenuItem { id: "apps", label: "Apps", children: Some(vec![leaf("calc"), leaf("paint")]) },
        MenuItem { id: "games", label: "Games", children: Some(vec![leaf("chess")]) },
        leaf("about"),
    ]
}

#[test]
fn entering_a_node_pushes_its_children() {
    let mut stack = vec![MenuState::new(root())];
    assert_eq!(try_enter_submenu(&mut stack), EnterOutcome::OpenedSubmenu);
    assert_eq!(stack.len(), 2);
    let top = &stack[1];
    assert_eq!(top.selected, 0);
    assert!(!top.animating);
    let ids: Vec<&str> = top.items.iter().map(|i| i.id).collect();
    assert_eq!(ids, vec!["calc", "paint"]);
}

#[test]
fn entering_chess_asks_for_a_match_and_leaves_the_stack() {
    let mut stack = vec![MenuState::new(root())];
    assert!(move_top_selection(&mut stack, 1));
    stack[0].finish_animation();
    assert_eq!(try_enter_submenu(&mut stack), EnterOutcome::OpenedSubmenu);
    assert_eq!(try_enter_submenu(&mut stack), EnterOutcome::StartChess);
    assert_eq!(stack.len(), 2);
}

#[test]
fn entering_a_leaf_or_an_empty_stack_does_nothing() {
    let mut stack = vec![MenuState::new(root())];
    assert!(move_top_selection(&mut stack, 2));
    stack[0].finish_animation();
    assert_eq!(try_enter_submenu(&mut stack), EnterOutcome::Nothing);
    assert_eq!(stack.len(), 1);
    let mut empty: Vec<MenuState> = vec![];
    assert_eq!(try_enter_submenu(&mut empty), EnterOutcome::Nothing);
    assert!(!move_top_selection(&mut empty, 1));
}

#[test]
fn going_back_closes_the_match_then_pops_then_stops_at_root() {
    let mut stack = vec![MenuState::new(root())];
    try_enter_submenu(&mut stack);
    assert_eq!(pop_menu(&mut stack, true), BackOutcome::ClosedChess);
    assert_eq!(stack.len(), 2);
    assert_eq!(pop_menu(&mut stack, false), BackOutcome::Popped);
    assert_eq!(stack.len(), 1);
    assert_eq!(pop_menu(&mut stack, false), BackOutcome::AtRoot);
    assert_eq!(stack.len(), 1);
}

#[test]
fn clicking_a_card_enters_or_slides() {
    assert!(matches!(card_click(2, 2), CardClick::Enter));
    assert!(matches!(card_click(0, 2), CardClick::Slide(-2)));
    assert!(matches!(card_click(3, 1), CardClick::Slide(2)));
}

#[test]
fn root_menu_tree() {
    let items = root_items();
    let ids: Vec<&str> = items.iter().map(|i| i.id).collect();
    assert_eq!(ids, vec!["apps", "games", "tools", "about"]);
    let labels: Vec<&str> = items.iter().map(|i| i.label).collect();
    assert_eq!(labels, vec!["Apps", "Games", "Tools", "About"]);
    let apps: Vec<&str> = items[0].children.as_ref().unwrap().iter().map(|i| i.id).collect();
    assert_eq!(apps, vec!["calc", "paint", "notes"]);
    assert_eq!(items[1].children.as_ref().unwrap()[0].label, "Chess");
    assert_eq!(items[2].children.as_ref().unwrap().len(), 2);
    assert!(items[3].children.is_none());
}
