//! The keyboard-shortcuts overlay, which doubles as the command palette:
//! how the catalogued commands are grouped by category, and each
//! category's title.

use vstd::prelude::*;

verus! {

/// The category a catalogued command is filed under.
#[derive(Clone, Copy, PartialEq, Eq, Debug, Structural)]
pub enum Category {
    App,
    File,
    Edit,
    View,
    Go,
    Selection,
    Window,
    Help,
    Context,
}

/// The title of a category (the source string the translation catalog is
/// keyed on).
pub fn category_title(category: Category) -> (r: &'static str)
    ensures
        r@ == match category {
            Category::App => "App"@,
            Category::File => "File"@,
            Category::Edit => "Edit"@,
            Category::View => "View"@,
            Category::Go => "Go"@,
            Category::Selection => "Selection"@,
            Category::Window => "Window"@,
            Category::Help => "Help"@,
            Category::Context => "Context"@,
        },
{
    match category {
        Category::App => "App",
        Category::File => "File",
        Category::Edit => "Edit",
        Category::View => "View",
        Category::Go => "Go",
        Category::Selection => "Selection",
        Category::Window => "Window",
        Category::Help => "Help",
        Category::Context => "Context",
    }
}

/// Position of the group of category `c`, or -1.
pub open spec fn group_pos(groups: Seq<(Category, Seq<usize>)>, c: Category) -> int
    decreases groups.len(),
{
    if groups.len() == 0 {
        -1
    } else if groups.last().0 == c {
        groups.len() - 1
    } else {
        group_pos(groups.drop_last(), c)
    }
}

/// The groups of the first `n` commands: one per category in order of
/// first appearance, each listing its commands' positions in order.
pub open spec fn grouped(cats: Seq<Category>, n: nat) -> Seq<(Category, Seq<usize>)>
    decreases n,
{
    if n == 0 {
        Seq::empty()
    } else {
        let g = grouped(cats, (n - 1) as nat);
        let c = cats[n - 1];
        let p = group_pos(g, c);
        if p >= 0 {
            g.update(p, (c, g[p].1.push((n - 1) as usize)))
        } else {
            g.push((c, seq![(n - 1) as usize]))
        }
    }
}

proof fn lemma_group_pos(groups: Seq<(Category, Seq<usize>)>, c: Category)
    ensures
        -1 <= group_pos(groups, c) < groups.len(),
        group_pos(groups, c) >= 0 ==> groups[group_pos(groups, c)].0 == c,
        group_pos(groups, c) < 0 ==> forall|i: int| 0 <= i < groups.len() ==> groups[i].0 != c,
    decreases groups.len(),
{
    if groups.len() > 0 {
        lemma_group_pos(groups.drop_last(), c);
        if groups.last().0 != c {
            assert forall|i: int| 0 <= i < groups.len() - 1 implies groups[i].0 == groups.drop_last()[i].0 by {}
        }
    }
}

fn find_group(groups: &Vec<(Category, Vec<usize>)>, c: Category) -> (r: Option<usize>)
    ensures
        match r {
            Some(p) => p as int == group_pos(groups_view(groups@), c),
            None => group_pos(groups_view(groups@), c) == -1,
        },
{
    let mut n: usize = groups.len();
    assert(groups_view(groups@).take(n as int) =~= groups_view(groups@));
    while n > 0
        invariant
            n <= groups.len(),
            group_pos(groups_view(groups@), c) == group_pos(groups_view(groups@).take(n as int), c),
        decreases n,
    {
        proof {
            assert(groups_view(groups@).take(n as int).drop_last() =~= groups_view(groups@).take(n - 1));
        }
        if groups[n - 1].0 == c {
            return Some(n - 1);
        }
        n = n - 1;
    }
    None
}

/// The groups as plain values.
pub open spec fn groups_view(groups: Seq<(Category, Vec<usize>)>) -> Seq<(Category, Seq<usize>)> {
    groups.map_values(|g: (Category, Vec<usize>)| (g.0, g.1@))
}

/// Group the catalogued commands (given by category, in catalogue order)
/// for the palette: one group per category, in order of first
/// appearance, each with its commands' positions in catalogue order.
pub fn command_groups(categories: &Vec<Category>) -> (r: Vec<(Category, Vec<usize>)>)
    ensures
        groups_view(r@) == grouped(categories@, categories.len() as nat),
{
    let mut groups: Vec<(Category, Vec<usize>)> = Vec::new();
    let mut i: usize = 0;
    assert(groups_view(groups@) =~= Seq::<(Category, Seq<usize>)>::empty());
    while i < categories.len()
        invariant
            i <= categories.len(),
            groups_view(groups@) == grouped(categories@, i as nat),
        decreases categories.len() - i,
    {
        let c = categories[i];
        let ghost g = groups_view(groups@);
        proof {
            lemma_group_pos(g, c);
        }
        match find_group(&groups, c) {
            Some(p) => {
                let mut members = groups[p].1.clone();
                assert(members@ == groups@[p as int].1@);
                members.push(i);
                groups.set(p, (c, members));
                assert(groups_view(groups@) =~= g.update(p as int, (c, g[p as int].1.push(i))));
            },
            None => {
                let mut members: Vec<usize> = Vec::new();
                members.push(i);
                groups.push((c, members));
                assert(groups_view(groups@) =~= g.push((c, seq![i])));
            },
        }
        i = i + 1;
    }
    groups
}

/// No category has two groups.
pub proof fn lemma_one_group_per_category(cats: Seq<Category>, n: nat)
    requires
        n <= cats.len(),
    ensures
        forall|a: int, b: int|
            0 <= a < b < grouped(cats, n).len() ==> grouped(cats, n)[a].0 != grouped(cats, n)[b].0,
    decreases n,
{
    if n > 0 {
        lemma_one_group_per_category(cats, (n - 1) as nat);
        lemma_group_pos(grouped(cats, (n - 1) as nat), cats[n - 1]);
    }
}

} // verus!
