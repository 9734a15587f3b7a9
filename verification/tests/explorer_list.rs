use chess_menu::explorer::{ordenar_itens, ElementoArquivo, FileExplorer};

fn item(nome: &str, dir: bool) -> ElementoArquivo {
    ElementoArquivo { nome: nome.to_string(), eh_diretorio: dir }
}

fn names(e: &FileExplorer) -> Vec<String> {
    e.itens.iter().map(|i| i.nome.clone()).collect()
}

fn explorer_with(n: usize, rows: usize) -> FileExplorer {
    let mut e = FileExplorer::new();
    e.linhas_visiveis = rows;
    e.atualizar_itens((0..n).map(|i| item(&format!("f{:02}", i), false)).collect());
    e
}

#[test]
fn directories_first_then_by_name() {
    let sorted = ordenar_itens(vec![
        item("b.txt", false),
        item("zeta", true),
        item("A.txt", false),
        item("alpha", true),
        item("a.txt", false),
    ]);
    let got: Vec<(String, bool)> = sorted.iter().map(|i| (i.nome.clone(), i.eh_diretorio)).collect();
    assert_eq!(
        got,
        vec![
            ("alpha".to_string(), true),
            ("zeta".to_string(), true),
            ("A.txt".to_string(), false),
            ("a.txt".to_string(), false),
            ("b.txt".to_string(), false),
        ]
    );
}

#[test]
fn refresh_selects_first_entry() {
    let mut e = FileExplorer::new();
    e.atualizar_itens(vec![item("b", false), item("a", false)]);
    assert_eq!(names(&e), vec!["a", "b"]);
    assert_eq!(e.selecionado, Some(0));
    assert_eq!(e.item_selecionado().map(|i| i.nome.clone()), Some("a".to_string()));
    e.atualizar_itens(vec![]);
    assert_eq!(e.selecionado, None);
    assert_eq!(e.scroll_offset, 0);
    assert!(e.item_selecionado().is_none());
}

#[test]
fn refresh_keeps_selection_within_list() {
    let mut e = explorer_with(10, 4);
    e.selecionado = Some(8);
    e.atualizar_itens(vec![item("x", false), item("y", false), item("z", false)]);
    assert_eq!(e.selecionado, Some(2));
}

#[test]
fn next_wraps_and_scrolls() {
    let mut e = explorer_with(5, 2);
    assert_eq!(e.selecionado, Some(0));
    e.proximo();
    e.proximo();
    assert_eq!(e.selecionado, Some(2));
    assert_eq!(e.scroll_offset, 1);
    e.proximo();
    e.proximo();
    assert_eq!(e.selecionado, Some(4));
    assert_eq!(e.scroll_offset, 3);
    e.proximo();
    assert_eq!(e.selecionado, Some(0));
    assert_eq!(e.scroll_offset, 0);
}

#[test]
fn previous_wraps_to_last() {
    let mut e = explorer_with(5, 2);
    e.anterior();
    assert_eq!(e.selecionado, Some(4));
    assert_eq!(e.scroll_offset, 3);
    e.anterior();
    assert_eq!(e.selecionado, Some(3));
    assert_eq!(e.scroll_offset, 3);
    e.proximo();
    assert_eq!(e.selecionado, Some(4));
}

#[test]
fn empty_list_ignores_navigation() {
    let mut e = FileExplorer::new();
    e.proximo();
    e.anterior();
    e.scroll_by_lines(3);
    assert_eq!(e.selecionado, None);
    assert_eq!(e.scroll_offset, 0);
    assert_eq!(e.visible_range(), (0, 0));
}

#[test]
fn scrolling_is_clamped() {
    let mut e = explorer_with(10, 4);
    e.scroll_by_lines(3);
    assert_eq!(e.scroll_offset, 3);
    e.scroll_by_lines(100);
    assert_eq!(e.scroll_offset, 6);
    e.scroll_by_lines(-100);
    assert_eq!(e.scroll_offset, 0);
    e.selecionado = None;
    e.scroll_by_lines(2);
    assert_eq!(e.selecionado, Some(2));
}

#[test]
fn visible_range_and_capacity() {
    let mut e = explorer_with(10, 4);
    assert_eq!(e.visible_capacity(), 4);
    assert_eq!(e.visible_range(), (0, 4));
    e.scroll_offset = 8;
    assert_eq!(e.visible_range(), (8, 10));
    e.scroll_offset = 50;
    assert_eq!(e.visible_range(), (9, 10));
    e.linhas_visiveis = 0;
    assert_eq!(e.visible_capacity(), 1);
}

#[test]
fn resizing_keeps_selection_shown() {
    let mut e = explorer_with(10, 8);
    e.selecionado = Some(7);
    e.definir_linhas_visiveis(3);
    assert_eq!(e.linhas_visiveis, 3);
    assert_eq!(e.scroll_offset, 5);
}

#[test]
fn clicking_selects_then_opens() {
    let mut e = explorer_with(10, 4);
    assert!(!e.clicar_item(6));
    assert_eq!(e.selecionado, Some(6));
    assert_eq!(e.scroll_offset, 3);
    assert!(e.clicar_item(6));
    assert_eq!(e.selecionado, Some(6));
}

#[test]
fn enter_opens_only_directories() {
    let mut e = FileExplorer::new();
    e.atualizar_itens(vec![item("notes.txt", false), item("docs", true)]);
    assert_eq!(names(&e), vec!["docs".to_string(), "notes.txt".to_string()]);
    assert_eq!(e.ao_pressionar_enter().map(|s| s.as_str()), Some("docs"));
    e.proximo();
    assert_eq!(e.ao_pressionar_enter(), None);
    e.selecionado = Some(7);
    assert_eq!(e.ao_pressionar_enter(), None);
    e.selecionado = None;
    assert_eq!(e.ao_pressionar_enter(), None);
}
