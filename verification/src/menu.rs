//! The carousel menu: its tree of items and the selection within one level.
use vstd::prelude::*;

verus! {

/// An item of the menu tree: a leaf, or a node opening a submenu.
pub struct MenuItem {
    pub id: &'static str,
    pub label: &'static str,
    pub children: Option<Vec<MenuItem>>,
}

/// `a` and `b` are the same tree: same identifiers and labels, and the same children in
/// the same order, down to the leaves.
pub open spec fn same_tree(a: MenuItem, b: MenuItem) -> bool
    decreases a,
{
    &&& a.id == b.id
    &&& a.label == b.label
    &&& match (a.children, b.children) {
        (None, None) => true,
        (Some(ca), Some(cb)) => same_forest(ca@, cb@),
        _ => false,
    }
}

/// The trees of `a` and `b` are pairwise the same, in the same order.
pub open spec fn same_forest(a: Seq<MenuItem>, b: Seq<MenuItem>) -> bool
    decreases a,
{
    &&& a.len() == b.len()
    &&& (a.len() > 0 ==> same_forest(a.drop_last(), b.drop_last()) && same_tree(a.last(), b.last()))
}

/// A copy of `item` and of its whole subtree.
fn copy_menu_item(item: &MenuItem) -> (copy: MenuItem)
    ensures
        same_tree(copy, *item),
    decreases item,
{
    let children = match &item.children {
        None => None,
        Some(v) => {
            let mut out: Vec<MenuItem> = Vec::new();
            let mut i: usize = 0;
            while i < v.len()
                invariant
                    i <= v@.len(),
                    item.children == Some(*v),
                    same_forest(out@, v@.take(i as int)),
                decreases v@.len() - i,
            {
                assert(decreases_to!(*item => item.children));
                assert(decreases_to!(item.children => item.children->0));
                assert(decreases_to!(*v => v@));
                assert(decreases_to!(v@ => v@[i as int]));
                assert(decreases_to!(*item => v@[i as int]));
                let c = copy_menu_item(&v[i]);
                let ghost before = out@;
                out.push(c);
                proof {
                    assert(out@.drop_last() =~= before);
                    assert(v@.take(i + 1).drop_last() =~= v@.take(i as int));
                    assert(v@.take(i + 1).last() == v@[i as int]);
                }
                i += 1;
            }
            proof {
                assert(v@.take(v@.len() as int) =~= v@);
            }
            Some(out)
        },
    };
    MenuItem { id: item.id, label: item.label, children }
}

impl Clone for MenuItem {
    /// Copies the item and its whole subtree.
    fn clone(&self) -> (copy: Self)
        ensures
            same_tree(copy, *self),
    {
        copy_menu_item(self)
    }
}

/// `item` is a leaf with identifier `id` and label `label`.
pub open spec fn leaf_item(item: MenuItem, id: &str, label: &str) -> bool {
    item.id@ == id@ && item.label@ == label@ && item.children is None
}

/// `item` has identifier `id` and label `label` and opens the leaves `kids`, given as
/// `(identifier, label)` pairs, in that order.
pub open spec fn node_item(item: MenuItem, id: &str, label: &str, kids: Seq<(&str, &str)>) -> bool {
    &&& item.id@ == id@
    &&& item.label@ == label@
    &&& item.children matches Some(ch) && ch@.len() == kids.len() && forall|i: int|
        0 <= i < kids.len() ==> leaf_item(#[trigger] ch@[i], kids[i].0, kids[i].1)
}

fn leaf(id: &'static str, label: &'static str) -> (item: MenuItem)
    ensures
        leaf_item(item, id, label),
{
    MenuItem { id, label, children: None }
}

/// The top level of the menu: Apps (Calc, Paint, Notes), Games (Chess), Tools (Terminal,
/// Editor) and About.
pub fn root_items() -> (items: Vec<MenuItem>)
    ensures
        items@.len() == 4,
        node_item(items@[0], "apps", "Apps", seq![("calc", "Calc"), ("paint", "Paint"), ("notes", "Notes")]),
        node_item(items@[1], "games", "Games", seq![("chess", "Chess")]),
        node_item(items@[2], "tools", "Tools", seq![("terminal", "Terminal"), ("editor", "Editor")]),
        leaf_item(items@[3], "about", "About"),
{
    let apps = MenuItem {
        id: "apps",
        label: "Apps",
        children: Some(vec![leaf("calc", "Calc"), leaf("paint", "Paint"), leaf("notes", "Notes")]),
    };
    let games = MenuItem { id: "games", label: "Games", children: Some(vec![leaf("chess", "Chess")]) };
    let tools = MenuItem {
        id: "tools",
        label: "Tools",
        children: Some(vec![leaf("terminal", "Terminal"), leaf("editor", "Editor")]),
    };
    let items = vec![apps, games, tools, leaf("about", "About")];
    proof {
        let a: Seq<(&str, &str)> = seq![("calc", "Calc"), ("paint", "Paint"), ("notes", "Notes")];
        assert(a[0] == ("calc", "Calc") && a[1] == ("paint", "Paint") && a[2] == ("notes", "Notes"));
        let t: Seq<(&str, &str)> = seq![("terminal", "Terminal"), ("editor", "Editor")];
        assert(t[0] == ("terminal", "Terminal") && t[1] == ("editor", "Editor"));
        let g: Seq<(&str, &str)> = seq![("chess", "Chess")];
        assert(g[0] == ("chess", "Chess"));
    }
    items
}

/// The navigation buttons.
#[derive(Clone, Copy, PartialEq, Eq, Structural, Debug)]
pub enum ArrowId {
    Left,
    Right,
    Back,
}

/// One level of the menu: its items, the selected one, and the slide from `anim_from` to
/// `anim_to` while `animating` (its progress is kept by the window).
pub struct MenuState {
    pub items: Vec<MenuItem>,
    pub selected: i32,
    pub anim_from: i32,
    pub anim_to: i32,
    pub animating: bool,
}

/// `x` kept between `lo` and `hi`.
pub open spec fn clamp_int(x: int, lo: int, hi: int) -> int {
    if x < lo {
        lo
    } else if x > hi {
        hi
    } else {
        x
    }
}

/// Where a slide by `delta` from `sel` ends on a list of `len` items: `delta` items away,
/// unless that lies beyond an end of the list, in which case at that end; always on the
/// list, and never on the far side of `sel` from where `delta` points.
pub proof fn lemma_slide_target(sel: int, delta: int, len: int)
    requires
        len > 0,
        0 <= sel < len,
    ensures
        0 <= clamp_int(sel + delta, 0, len - 1) < len,
        0 <= sel + delta < len ==> clamp_int(sel + delta, 0, len - 1) == sel + delta,
        sel + delta < 0 ==> clamp_int(sel + delta, 0, len - 1) == 0,
        sel + delta >= len ==> clamp_int(sel + delta, 0, len - 1) == len - 1,
        delta >= 0 ==> sel <= clamp_int(sel + delta, 0, len - 1) <= sel + delta,
        delta <= 0 ==> sel + delta <= clamp_int(sel + delta, 0, len - 1) <= sel,
{
}

impl MenuState {
    /// A level showing `items` with the first one selected and no slide under way.
    pub fn new(items: Vec<MenuItem>) -> (m: Self)
        ensures
            m.items@ == items@,
            m.selected == 0,
            m.anim_from == 0,
            m.anim_to == 0,
            !m.animating,
    {
        MenuState { items, selected: 0, anim_from: 0, anim_to: 0, animating: false }
    }

    /// Starts sliding the selection by `delta` items, kept within the list. Nothing happens
    /// during a slide, on an empty level, or when the selection would not change. Returns
    /// whether a slide started.
    pub fn move_selection(&mut self, delta: i32) -> (started: bool)
        requires
            old(self).items@.len() <= i32::MAX,
            i32::MIN <= old(self).selected + delta <= i32::MAX,
        ensures
            final(self).items@ == old(self).items@,
            final(self).selected == old(self).selected,
            started == (!old(self).animating && old(self).items@.len() > 0 && clamp_int(
                old(self).selected + delta,
                0,
                old(self).items@.len() - 1,
            ) != old(self).selected),
            started ==> final(self).animating && final(self).anim_from == old(self).selected
                && final(self).anim_to == clamp_int(
                old(self).selected + delta,
                0,
                old(self).items@.len() - 1,
            ),
            started ==> 0 <= final(self).anim_to < final(self).items@.len(),
            !started ==> final(self).animating == old(self).animating && final(self).anim_from
                == old(self).anim_from && final(self).anim_to == old(self).anim_to,
    {
        if self.animating {
            return false;
        }
        let len = self.items.len() as i64;
        if len == 0 {
            return false;
        }
        let wanted = self.selected as i64 + delta as i64;
        let next: i64 = if wanted < 0 {
            0
        } else if wanted > len - 1 {
            len - 1
        } else {
            wanted
        };
        if next == self.selected as i64 {
            return false;
        }
        self.anim_from = self.selected;
        self.anim_to = next as i32;
        self.animating = true;
        true
    }

    /// Ends the slide: its target becomes the selection.
    pub fn finish_animation(&mut self)
        ensures
            final(self).items@ == old(self).items@,
            final(self).selected == old(self).anim_to,
            final(self).anim_from == old(self).anim_from,
            final(self).anim_to == old(self).anim_to,
            !final(self).animating,
    {
        self.animating = false;
        self.selected = self.anim_to;
    }

    /// The selected item, if the selection lies on the list.
    pub fn selected_item(&self) -> (item: Option<&MenuItem>)
        ensures
            0 <= self.selected < self.items@.len() ==> item == Some(&self.items@[self.selected as int]),
            !(0 <= self.selected < self.items@.len()) ==> item is None,
    {
        if self.selected >= 0 && (self.selected as usize) < self.items.len() {
            Some(&self.items[self.selected as usize])
        } else {
            None
        }
    }
}


/// `a == b` on string slices (std's `PartialEq for str`): true exactly when both hold the
/// same characters.
#[verifier::external_body]
fn text_eq(a: &str, b: &str) -> (same: bool)
    ensures
        same == (a@ == b@),
{
    a == b
}

/// The item selected on the top level of `stack`, when there is one.
pub open spec fn selected_on_top(stack: Seq<MenuState>) -> Option<MenuItem> {
    if stack.len() == 0 {
        None
    } else {
        let top = stack.last();
        if 0 <= top.selected < top.items@.len() {
            Some(top.items@[top.selected as int])
        } else {
            None
        }
    }
}

/// What entering the selected item called for.
#[derive(Clone, Copy, PartialEq, Eq, Structural, Debug)]
pub enum EnterOutcome {
    /// No item is selected, or the selected one is a leaf other than the chess board.
    Nothing,
    /// The selected item is the chess board: the window starts a match.
    StartChess,
    /// The selected item's submenu was pushed on the stack.
    OpenedSubmenu,
}

/// What going back did.
#[derive(Clone, Copy, PartialEq, Eq, Structural, Debug)]
pub enum BackOutcome {
    /// A match was open: the window closes it and the menu stays as it was.
    ClosedChess,
    /// The top level was dropped.
    Popped,
    /// Nothing was left to go back to.
    AtRoot,
}

/// Enters the item selected on the top level: the chess board (identifier `"chess"`)
/// asks for a match, an item with children opens them as a new level with the first one
/// selected, anything else does nothing.
pub fn try_enter_submenu(stack: &mut Vec<MenuState>) -> (out: EnterOutcome)
    ensures
        out == (match selected_on_top(old(stack)@) {
            None => EnterOutcome::Nothing,
            Some(item) => if item.id@ == "chess"@ {
                EnterOutcome::StartChess
            } else if item.children is Some {
                EnterOutcome::OpenedSubmenu
            } else {
                EnterOutcome::Nothing
            },
        }),
        out != EnterOutcome::OpenedSubmenu ==> final(stack)@ == old(stack)@,
        out == EnterOutcome::OpenedSubmenu ==> {
            let top = final(stack)@.last();
            &&& final(stack)@.len() == old(stack)@.len() + 1
            &&& final(stack)@.drop_last() == old(stack)@
            &&& same_forest(top.items@, selected_on_top(old(stack)@)->0.children->0@)
            &&& top.selected == 0
            &&& top.anim_from == 0
            &&& top.anim_to == 0
            &&& !top.animating
        },
{
    let n = stack.len();
    if n == 0 {
        return EnterOutcome::Nothing;
    }
    let sel = stack[n - 1].selected;
    if sel < 0 || sel as usize >= stack[n - 1].items.len() {
        return EnterOutcome::Nothing;
    }
    let item = &stack[n - 1].items[sel as usize];
    if text_eq(item.id, "chess") {
        return EnterOutcome::StartChess;
    }
    let copy = copy_menu_item(item);
    match copy.children {
        None => EnterOutcome::Nothing,
        Some(children) => {
            stack.push(MenuState::new(children));
            proof {
                assert(final(stack)@.drop_last() =~= old(stack)@);
            }
            EnterOutcome::OpenedSubmenu
        },
    }
}

/// Goes back one step: out of an open match, else off the top level when it is not the
/// root.
pub fn pop_menu(stack: &mut Vec<MenuState>, chess_open: bool) -> (out: BackOutcome)
    ensures
        out == (if chess_open {
            BackOutcome::ClosedChess
        } else if old(stack)@.len() > 1 {
            BackOutcome::Popped
        } else {
            BackOutcome::AtRoot
        }),
        out == BackOutcome::Popped ==> final(stack)@ == old(stack)@.drop_last(),
        out != BackOutcome::Popped ==> final(stack)@ == old(stack)@,
{
    if chess_open {
        return BackOutcome::ClosedChess;
    }
    if stack.len() > 1 {
        let _ = stack.pop();
        proof {
            assert(final(stack)@ =~= old(stack)@.drop_last());
        }
        BackOutcome::Popped
    } else {
        BackOutcome::AtRoot
    }
}

/// Starts a slide of the top level's selection by `delta` items (see
/// [`MenuState::move_selection`]); nothing happens on an empty stack.
pub fn move_top_selection(stack: &mut Vec<MenuState>, delta: i32) -> (started: bool)
    requires
        old(stack)@.len() > 0 ==> old(stack)@.last().items@.len() <= i32::MAX,
        old(stack)@.len() > 0 ==> i32::MIN <= old(stack)@.last().selected + delta <= i32::MAX,
    ensures
        final(stack)@.len() == old(stack)@.len(),
        old(stack)@.len() > 0 ==> final(stack)@.drop_last() == old(stack)@.drop_last(),
        old(stack)@.len() == 0 ==> !started,
        old(stack)@.len() > 0 ==> {
            let before = old(stack)@.last();
            let after = final(stack)@.last();
            &&& after.items@ == before.items@
            &&& after.selected == before.selected
            &&& started == (!before.animating && before.items@.len() > 0 && clamp_int(
                before.selected + delta,
                0,
                before.items@.len() - 1,
            ) != before.selected)
            &&& started ==> after.animating && after.anim_from == before.selected
                && after.anim_to == clamp_int(before.selected + delta, 0, before.items@.len() - 1)
            &&& !started ==> after.animating == before.animating && after.anim_from
                == before.anim_from && after.anim_to == before.anim_to
        },
{
    match stack.pop() {
        None => false,
        Some(mut top) => {
            let started = top.move_selection(delta);
            stack.push(top);
            proof {
                assert(final(stack)@.drop_last() =~= old(stack)@.drop_last());
            }
            started
        },
    }
}

/// A click on the card at `index` of the top level: the selected card is entered, another
/// one slides into the selection.
pub enum CardClick {
    Enter,
    Slide(i32),
}

/// What a click on the card at `index` asks for, the top level's selection being
/// `selected`.
pub fn card_click(index: usize, selected: i32) -> (c: CardClick)
    requires
        index <= i32::MAX,
        i32::MIN <= index - selected <= i32::MAX,
    ensures
        index == selected ==> c is Enter,
        index != selected ==> c == CardClick::Slide((index - selected) as i32),
{
    if index as i32 == selected {
        CardClick::Enter
    } else {
        CardClick::Slide(index as i32 - selected)
    }
}

} // verus!
