//! The file explorer's list: ordering of the entries, selection and scrolling.
use vstd::prelude::*;

verus! {

broadcast use vstd::seq_lib::group_to_multiset_ensures;

/// An entry of the directory being shown.
pub struct ElementoArquivo {
    pub nome: String,
    pub eh_diretorio: bool,
}

/// Text order of `str`: lexicographic by Unicode code point, a proper prefix first.
pub open spec fn text_lt(a: Seq<char>, b: Seq<char>) -> bool
    decreases a.len(),
{
    if a.len() == 0 {
        b.len() > 0
    } else if b.len() == 0 {
        false
    } else if a[0] != b[0] {
        (a[0] as u32) < (b[0] as u32)
    } else {
        text_lt(a.drop_first(), b.drop_first())
    }
}

/// Compares two names with `<` on `String`. std documents that strings are ordered
/// lexicographically by their bytes, which orders code points by their values; that is
/// `text_lt` on the names' characters.
#[verifier::external_body]
fn name_lt(a: &String, b: &String) -> (lt: bool)
    ensures
        lt == text_lt(a@, b@),
{
    a < b
}

/// The explorer lists `a` before `b`: directories first, then by name.
pub open spec fn listed_before(a: ElementoArquivo, b: ElementoArquivo) -> bool {
    (a.eh_diretorio && !b.eh_diretorio) || (a.eh_diretorio == b.eh_diretorio && text_lt(
        a.nome@,
        b.nome@,
    ))
}

/// No entry of `s` comes after a later one.
pub open spec fn is_listed_in_order(s: Seq<ElementoArquivo>) -> bool {
    forall|i: int, j: int| 0 <= i < j < s.len() ==> !listed_before(#[trigger] s[j], #[trigger] s[i])
}

/// Text order is transitive.
pub proof fn lemma_text_lt_transitive(a: Seq<char>, b: Seq<char>, c: Seq<char>)
    requires
        text_lt(a, b),
        text_lt(b, c),
    ensures
        text_lt(a, c),
    decreases a.len(),
{
    if a.len() > 0 && b.len() > 0 && c.len() > 0 {
        if a[0] == b[0] && b[0] == c[0] {
            lemma_text_lt_transitive(a.drop_first(), b.drop_first(), c.drop_first());
        }
    }
}

/// Text order is irreflexive.
pub proof fn lemma_text_lt_irreflexive(a: Seq<char>)
    ensures
        !text_lt(a, a),
    decreases a.len(),
{
    if a.len() > 0 {
        lemma_text_lt_irreflexive(a.drop_first());
    }
}

/// The listing order is transitive.
pub proof fn lemma_listed_before_transitive(a: ElementoArquivo, b: ElementoArquivo, c: ElementoArquivo)
    requires
        listed_before(a, b),
        listed_before(b, c),
    ensures
        listed_before(a, c),
{
    if a.eh_diretorio == b.eh_diretorio && b.eh_diretorio == c.eh_diretorio {
        lemma_text_lt_transitive(a.nome@, b.nome@, c.nome@);
    }
}

/// `a` comes before `b` in dictionary order of their characters (by code point): `a` is a
/// proper beginning of `b`, or at the first position where they differ `a` has the smaller
/// character.
pub open spec fn dictionary_before(a: Seq<char>, b: Seq<char>) -> bool {
    ||| a.len() < b.len() && a == b.take(a.len() as int)
    ||| exists|k: int|
        0 <= k < a.len() && k < b.len() && a.take(k) == b.take(k) && (#[trigger] a[k] as u32) < (
        b[k] as u32)
}

proof fn lemma_text_lt_total(a: Seq<char>, b: Seq<char>)
    requires
        a != b,
    ensures
        text_lt(a, b) || text_lt(b, a),
    decreases a.len(),
{
    if a.len() > 0 && b.len() > 0 && a[0] == b[0] {
        if a.drop_first() == b.drop_first() {
            assert(a =~= seq![a[0]] + a.drop_first());
            assert(b =~= seq![b[0]] + b.drop_first());
        }
        lemma_text_lt_total(a.drop_first(), b.drop_first());
    } else if a.len() == 0 && b.len() == 0 {
        assert(a =~= b);
    } else if a.len() > 0 && b.len() > 0 {
        let x = a[0];
        let y = b[0];
        vstd::utf8::char_u32_cast(x, x as u32);
        vstd::utf8::char_u32_cast(y, y as u32);
    }
}

proof fn lemma_text_lt_is_dictionary_order(a: Seq<char>, b: Seq<char>)
    requires
        text_lt(a, b),
    ensures
        dictionary_before(a, b),
    decreases a.len(),
{
    if a.len() == 0 {
        assert(a =~= b.take(0));
    } else if a[0] != b[0] {
        assert(a.take(0) =~= b.take(0));
        assert((a[0] as u32) < (b[0] as u32));
    } else {
        let a1 = a.drop_first();
        let b1 = b.drop_first();
        lemma_text_lt_is_dictionary_order(a1, b1);
        if a1.len() < b1.len() && a1 == b1.take(a1.len() as int) {
            assert(a =~= seq![a[0]] + a1);
            assert(b.take(a.len() as int) =~= seq![b[0]] + b1.take(a1.len() as int));
            assert(a =~= b.take(a.len() as int));
        } else {
            let k = choose|k: int|
                0 <= k < a1.len() && k < b1.len() && a1.take(k) == b1.take(k) && (#[trigger] a1[k] as u32) < (
                b1[k] as u32);
            assert(a.take(k + 1) =~= seq![a[0]] + a1.take(k));
            assert(b.take(k + 1) =~= seq![b[0]] + b1.take(k));
            assert(a[k + 1] == a1[k] && b[k + 1] == b1[k]);
        }
    }
}

/// The explorer lists every directory before every file, and entries of the same kind in
/// dictionary order of their names: of two entries of the same kind, the earlier one has
/// the same name or one that comes first in dictionary order.
pub proof fn lemma_listing_order(s: Seq<ElementoArquivo>, i: int, j: int)
    requires
        is_listed_in_order(s),
        0 <= i < j < s.len(),
    ensures
        s[j].eh_diretorio ==> s[i].eh_diretorio,
        s[i].eh_diretorio == s[j].eh_diretorio ==> s[i].nome@ == s[j].nome@ || dictionary_before(
            s[i].nome@,
            s[j].nome@,
        ),
{
    assert(!listed_before(s[j], s[i]));
    if s[i].eh_diretorio == s[j].eh_diretorio && s[i].nome@ != s[j].nome@ {
        lemma_text_lt_total(s[i].nome@, s[j].nome@);
        lemma_text_lt_is_dictionary_order(s[i].nome@, s[j].nome@);
    }
}

/// Puts `itens` in listing order (directories first, then by name), keeping the order of
/// entries that neither precedes the other.
pub fn ordenar_itens(itens: Vec<ElementoArquivo>) -> (sorted: Vec<ElementoArquivo>)
    ensures
        sorted@.to_multiset() == itens@.to_multiset(),
        is_listed_in_order(sorted@),
{
    let mut rest = itens;
    let mut sorted: Vec<ElementoArquivo> = Vec::new();
    let ghost all = rest@;
    while rest.len() > 0
        invariant
            sorted@.to_multiset().add(rest@.to_multiset()) == all.to_multiset(),
            is_listed_in_order(sorted@),
        decreases rest@.len(),
    {
        let ghost before_rest = rest@;
        let x = rest.remove(0);
        proof {
            assert(rest@ =~= before_rest.remove(0));
            assert(before_rest.contains(x));
            assert(before_rest.to_multiset().count(x) > 0);
            assert(rest@.to_multiset() =~= before_rest.to_multiset().remove(x));
            assert(before_rest.to_multiset() =~= rest@.to_multiset().insert(x));
        }
        let mut j: usize = 0;
        while j < sorted.len() && !before_in_list(&x, &sorted[j])
            invariant
                j <= sorted@.len(),
                is_listed_in_order(sorted@),
                sorted@.to_multiset().add(rest@.to_multiset().insert(x)) == all.to_multiset(),
                forall|i: int| 0 <= i < j ==> !listed_before(x, #[trigger] sorted@[i]),
            decreases sorted@.len() - j,
        {
            j += 1;
        }
        let ghost old_sorted = sorted@;
        sorted.insert(j, x);
        proof {
            assert forall|a: int, b: int| 0 <= a < b < sorted@.len() implies !listed_before(
                #[trigger] sorted@[b],
                #[trigger] sorted@[a],
            ) by {
                if b == j {
                    assert(sorted@[a] == old_sorted[a]);
                } else if a == j {
                    assert(sorted@[b] == old_sorted[b - 1]);
                    assert(listed_before(x, old_sorted[j as int]));
                    if listed_before(old_sorted[b - 1], x) {
                        lemma_listed_before_transitive(old_sorted[b - 1], x, old_sorted[j as int]);
                        if b - 1 > j {
                            assert(!listed_before(old_sorted[b - 1], old_sorted[j as int]));
                        } else {
                            lemma_text_lt_irreflexive(old_sorted[j as int].nome@);
                        }
                    }
                } else if b < j {
                    assert(sorted@[a] == old_sorted[a] && sorted@[b] == old_sorted[b]);
                    assert(!listed_before(old_sorted[b], old_sorted[a]));
                } else if a < j {
                    assert(sorted@[a] == old_sorted[a] && sorted@[b] == old_sorted[b - 1]);
                    assert(!listed_before(old_sorted[b - 1], old_sorted[a]));
                } else {
                    assert(sorted@[a] == old_sorted[a - 1] && sorted@[b] == old_sorted[b - 1]);
                    assert(!listed_before(old_sorted[b - 1], old_sorted[a - 1]));
                }
            }
            assert(sorted@.to_multiset() == old_sorted.to_multiset().insert(x)) by {
                vstd::seq_lib::to_multiset_insert(old_sorted, j as int, x);
            }
            assert(sorted@.to_multiset().add(rest@.to_multiset()) =~= all.to_multiset());
        }
    }
    proof {
        assert(rest@.to_multiset() =~= vstd::multiset::Multiset::empty());
    }
    sorted
}

/// `a` is listed before `b` (see `listed_before`).
fn before_in_list(a: &ElementoArquivo, b: &ElementoArquivo) -> (before: bool)
    ensures
        before == listed_before(*a, *b),
{
    if a.eh_diretorio != b.eh_diretorio {
        return a.eh_diretorio;
    }
    name_lt(&a.nome, &b.nome)
}


/// The explorer's list: its entries, the selected one, and the first entry shown.
pub struct FileExplorer {
    pub itens: Vec<ElementoArquivo>,
    pub selecionado: Option<usize>,
    pub scroll_offset: usize,
    /// How many entries fit on the screen, as measured by the window (0 counts as 1).
    pub linhas_visiveis: usize,
}

/// Number of entries shown at once: the measured rows, at least one.
pub open spec fn capacity(rows: usize) -> int {
    if rows == 0 {
        1
    } else {
        rows as int
    }
}

/// First entry to show so that entry `sel` is visible, moving as little as possible from `scroll`.
pub open spec fn scroll_to_show(scroll: usize, sel: usize, cap: int) -> int {
    if sel < scroll {
        sel as int
    } else if sel >= scroll + cap {
        sel + 1 - cap
    } else {
        scroll as int
    }
}

/// Entry `sel` is among the `cap` entries shown from `scroll` on.
pub open spec fn shows(scroll: int, sel: int, cap: int) -> bool {
    scroll <= sel < scroll + cap
}

/// The selection after the list is refreshed with `len` entries: the same index, or the
/// first entry if none was selected, kept within the list.
pub open spec fn normalized_selection(sel: Option<usize>, len: int) -> usize {
    let s = match sel {
        Some(i) => i as int,
        None => 0,
    };
    if s < len - 1 {
        s as usize
    } else {
        (len - 1) as usize
    }
}

/// Entry selected by `proximo` in a list of `len` entries: the next one, wrapping from
/// the last to the first; the first when nothing was selected.
pub open spec fn next_index(sel: Option<usize>, len: int) -> int {
    match sel {
        Some(i) => if i >= len - 1 {
            0
        } else {
            i + 1
        },
        None => 0,
    }
}

/// Entry selected by `anterior` in a list of `len` entries: the previous one, wrapping from
/// the first to the last; the first when nothing was selected.
pub open spec fn prev_index(sel: Option<usize>, len: int) -> int {
    match sel {
        Some(i) => if i == 0 {
            len - 1
        } else {
            i - 1
        },
        None => 0,
    }
}

/// Going to the next entry and back, or back and then to the next, returns to the same entry.
pub proof fn lemma_next_prev_inverse(i: usize, len: int)
    requires
        0 <= i < len,
        len <= usize::MAX,
    ensures
        prev_index(Some(next_index(Some(i), len) as usize), len) == i,
        next_index(Some(prev_index(Some(i), len) as usize), len) == i,
{
}

impl FileExplorer {
    /// An empty list with no selection, sized for a 720-pixel-high window.
    pub fn new() -> (e: Self)
        ensures
            e.itens@.len() == 0,
            e.selecionado is None,
            e.scroll_offset == 0,
            e.linhas_visiveis == 14,
    {
        FileExplorer { itens: Vec::new(), selecionado: None, scroll_offset: 0, linhas_visiveis: 14 }
    }

    /// Number of entries shown at once (see `capacity`).
    pub fn visible_capacity(&self) -> (cap: usize)
        ensures
            cap == capacity(self.linhas_visiveis),
    {
        if self.linhas_visiveis == 0 {
            1
        } else {
            self.linhas_visiveis
        }
    }

    /// Scrolls as little as needed for the selected entry to be shown.
    pub fn ensure_selection_visible(&mut self)
        ensures
            final(self).itens@ == old(self).itens@,
            final(self).selecionado == old(self).selecionado,
            final(self).linhas_visiveis == old(self).linhas_visiveis,
            final(self).scroll_offset == match old(self).selecionado {
                None => old(self).scroll_offset as int,
                Some(sel) => scroll_to_show(
                    old(self).scroll_offset,
                    sel,
                    capacity(old(self).linhas_visiveis),
                ),
            },
            final(self).selecionado matches Some(sel) ==> shows(
                final(self).scroll_offset as int,
                sel as int,
                capacity(final(self).linhas_visiveis),
            ),
    {
        let sel = match self.selecionado {
            Some(s) => s,
            None => return ,
        };
        let cap = self.visible_capacity();
        if sel < self.scroll_offset {
            self.scroll_offset = sel;
            return ;
        }
        if sel - self.scroll_offset >= cap {
            self.scroll_offset = sel - (cap - 1);
        }
    }

    /// Keeps the selection on an entry of the list (the first one if none was selected) and
    /// shows it; an empty list has no selection and is scrolled to the top.
    pub fn normalize_selection(&mut self)
        ensures
            final(self).itens@ == old(self).itens@,
            final(self).linhas_visiveis == old(self).linhas_visiveis,
            old(self).itens@.len() == 0 ==> final(self).selecionado is None
                && final(self).scroll_offset == 0,
            old(self).itens@.len() > 0 ==> {
                let sel = normalized_selection(old(self).selecionado, old(self).itens@.len() as int);
                &&& final(self).selecionado == Some(sel)
                &&& final(self).scroll_offset == scroll_to_show(
                    old(self).scroll_offset,
                    sel,
                    capacity(old(self).linhas_visiveis),
                )
                &&& sel < old(self).itens@.len()
                &&& shows(final(self).scroll_offset as int, sel as int, capacity(final(self).linhas_visiveis))
            },
    {
        if self.itens.len() == 0 {
            self.selecionado = None;
            self.scroll_offset = 0;
            return ;
        }
        let current = match self.selecionado {
            Some(i) => i,
            None => 0,
        };
        let last = self.itens.len() - 1;
        self.selecionado = Some(if current < last { current } else { last });
        self.ensure_selection_visible();
    }

    /// The entries shown: from the first one shown (kept within the list) for at most one
    /// screenful; `(0, 0)` for an empty list.
    pub fn visible_range(&self) -> (range: (usize, usize))
        ensures
            self.itens@.len() == 0 ==> range == (0usize, 0usize),
            self.itens@.len() > 0 ==> {
                let start = if self.scroll_offset < self.itens@.len() - 1 {
                    self.scroll_offset as int
                } else {
                    self.itens@.len() - 1
                };
                &&& range.0 == start
                &&& range.1 == if start + capacity(self.linhas_visiveis) < self.itens@.len() {
                    start + capacity(self.linhas_visiveis)
                } else {
                    self.itens@.len() as int
                }
            },
    {
        if self.itens.len() == 0 {
            return (0, 0);
        }
        let cap = self.visible_capacity();
        let max_start = self.itens.len() - 1;
        let start = if self.scroll_offset < max_start { self.scroll_offset } else { max_start };
        let end = if cap < self.itens.len() - start { start + cap } else { self.itens.len() };
        (start, end)
    }

    /// Selects the next entry, wrapping from the last to the first (the first if none was
    /// selected), and shows it. An empty list is left alone.
    pub fn proximo(&mut self)
        ensures
            old(self).itens@.len() == 0 ==> *final(self) == *old(self),
            final(self).itens@ == old(self).itens@,
            final(self).linhas_visiveis == old(self).linhas_visiveis,
            old(self).itens@.len() > 0 ==> {
                let next = next_index(old(self).selecionado, old(self).itens@.len() as int);
                &&& final(self).selecionado == Some(next as usize)
                &&& final(self).scroll_offset == scroll_to_show(
                    old(self).scroll_offset,
                    next as usize,
                    capacity(old(self).linhas_visiveis),
                )
                &&& shows(final(self).scroll_offset as int, next, capacity(final(self).linhas_visiveis))
            },
    {
        if self.itens.len() == 0 {
            return ;
        }
        self.selecionado = Some(
            match self.selecionado {
                Some(i) => {
                    if i >= self.itens.len() - 1 {
                        0
                    } else {
                        i + 1
                    }
                },
                None => 0,
            },
        );
        self.ensure_selection_visible();
    }

    /// Selects the previous entry, wrapping from the first to the last (the first if none
    /// was selected), and shows it. An empty list is left alone.
    pub fn anterior(&mut self)
        ensures
            old(self).itens@.len() == 0 ==> *final(self) == *old(self),
            final(self).itens@ == old(self).itens@,
            final(self).linhas_visiveis == old(self).linhas_visiveis,
            old(self).itens@.len() > 0 ==> {
                let prev = prev_index(old(self).selecionado, old(self).itens@.len() as int);
                &&& final(self).selecionado == Some(prev as usize)
                &&& final(self).scroll_offset == scroll_to_show(
                    old(self).scroll_offset,
                    prev as usize,
                    capacity(old(self).linhas_visiveis),
                )
                &&& shows(final(self).scroll_offset as int, prev, capacity(final(self).linhas_visiveis))
            },
    {
        if self.itens.len() == 0 {
            return ;
        }
        self.selecionado = Some(
            match self.selecionado {
                Some(i) => {
                    if i == 0 {
                        self.itens.len() - 1
                    } else {
                        i - 1
                    }
                },
                None => 0,
            },
        );
        self.ensure_selection_visible();
    }

    /// Scrolls by `delta_lines` entries, staying between the top and the last full screen;
    /// with nothing selected, the first entry shown becomes selected. An empty list is left
    /// alone.
    pub fn scroll_by_lines(&mut self, delta_lines: i32)
        requires
            old(self).itens@.len() > 0 ==> old(self).itens@.len() <= i32::MAX,
            old(self).itens@.len() > 0 ==> old(self).scroll_offset <= i32::MAX,
            old(self).itens@.len() > 0 ==> old(self).scroll_offset + delta_lines <= i32::MAX,
        ensures
            old(self).itens@.len() == 0 ==> *final(self) == *old(self),
            final(self).itens@ == old(self).itens@,
            final(self).linhas_visiveis == old(self).linhas_visiveis,
            old(self).itens@.len() > 0 ==> {
                let len = old(self).itens@.len() as int;
                let cap = capacity(old(self).linhas_visiveis);
                let max_start = if len > cap {
                    len - cap
                } else {
                    0
                };
                let wanted = old(self).scroll_offset + delta_lines;
                let next = if wanted < 0 {
                    0
                } else if wanted > max_start {
                    max_start
                } else {
                    wanted
                };
                &&& final(self).scroll_offset == next
                &&& final(self).selecionado == match old(self).selecionado {
                    Some(s) => Some(s),
                    None => Some(
                        (if next < len - 1 {
                            next
                        } else {
                            len - 1
                        }) as usize,
                    ),
                }
            },
    {
        if self.itens.len() == 0 {
            return ;
        }
        let cap = self.visible_capacity();
        let max_start: usize = if self.itens.len() > cap { self.itens.len() - cap } else { 0 };
        let wanted: i64 = self.scroll_offset as i64 + delta_lines as i64;
        let next: usize = if wanted < 0 {
            0
        } else if wanted > max_start as i64 {
            max_start
        } else {
            wanted as usize
        };
        self.scroll_offset = next;

        if self.selecionado.is_none() {
            let last = self.itens.len() - 1;
            self.selecionado = Some(if self.scroll_offset < last { self.scroll_offset } else { last });
        }
    }

    /// Replaces the entries with `itens` put in listing order (see `ordenar_itens`) and keeps
    /// the selection on the list (see `normalize_selection`).
    pub fn atualizar_itens(&mut self, itens: Vec<ElementoArquivo>)
        ensures
            final(self).itens@.to_multiset() == itens@.to_multiset(),
            is_listed_in_order(final(self).itens@),
            final(self).linhas_visiveis == old(self).linhas_visiveis,
            itens@.len() == 0 ==> final(self).selecionado is None && final(self).scroll_offset == 0,
            itens@.len() > 0 ==> {
                let sel = normalized_selection(old(self).selecionado, itens@.len() as int);
                &&& final(self).selecionado == Some(sel)
                &&& final(self).scroll_offset == scroll_to_show(
                    old(self).scroll_offset,
                    sel,
                    capacity(old(self).linhas_visiveis),
                )
            },
    {
        let sorted = ordenar_itens(itens);
        proof {
            assert(sorted@.len() == sorted@.to_multiset().len());
            assert(itens@.len() == itens@.to_multiset().len());
        }
        self.itens = sorted;
        self.normalize_selection();
    }

    /// Sets how many entries fit on the screen, then keeps the selection on the list and shown.
    pub fn definir_linhas_visiveis(&mut self, linhas: usize)
        ensures
            final(self).itens@ == old(self).itens@,
            final(self).linhas_visiveis == linhas,
            old(self).itens@.len() == 0 ==> final(self).selecionado is None
                && final(self).scroll_offset == 0,
            old(self).itens@.len() > 0 ==> {
                let sel = normalized_selection(old(self).selecionado, old(self).itens@.len() as int);
                &&& final(self).selecionado == Some(sel)
                &&& final(self).scroll_offset == scroll_to_show(old(self).scroll_offset, sel, capacity(linhas))
            },
    {
        self.linhas_visiveis = linhas;
        self.normalize_selection();
    }

    /// The selected entry, if the selection lies on the list.
    pub fn item_selecionado(&self) -> (item: Option<&ElementoArquivo>)
        ensures
            match self.selecionado {
                Some(i) => if i < self.itens@.len() {
                    item == Some(&self.itens@[i as int])
                } else {
                    item is None
                },
                None => item is None,
            },
    {
        match self.selecionado {
            Some(index) => {
                if index < self.itens.len() {
                    Some(&self.itens[index])
                } else {
                    None
                }
            },
            None => None,
        }
    }

    /// The directory that Enter opens: the selected entry, when the selection lies on the
    /// list and the entry is a directory; `None` otherwise (files are not opened).
    pub fn ao_pressionar_enter(&self) -> (dir: Option<&String>)
        ensures
            match self.selecionado {
                Some(i) => if i < self.itens@.len() && self.itens@[i as int].eh_diretorio {
                    dir == Some(&self.itens@[i as int].nome)
                } else {
                    dir is None
                },
                None => dir is None,
            },
    {
        match self.selecionado {
            Some(index) => {
                if index < self.itens.len() && self.itens[index].eh_diretorio {
                    Some(&self.itens[index].nome)
                } else {
                    None
                }
            },
            None => None,
        }
    }

    /// The entry at `index` was clicked: an entry already selected is to be opened (`true`);
    /// any other becomes selected and shown (`false`).
    pub fn clicar_item(&mut self, index: usize) -> (abrir: bool)
        ensures
            final(self).itens@ == old(self).itens@,
            final(self).linhas_visiveis == old(self).linhas_visiveis,
            abrir == (old(self).selecionado == Some(index)),
            abrir ==> *final(self) == *old(self),
            !abrir ==> final(self).selecionado == Some(index) && final(self).scroll_offset
                == scroll_to_show(old(self).scroll_offset, index, capacity(old(self).linhas_visiveis)),
    {
        if self.selecionado == Some(index) {
            return true;
        }
        self.selecionado = Some(index);
        self.ensure_selection_visible();
        false
    }
}

} // verus!
