//! Labels shown in the picker.
//!
//! A workspace is labelled by its name. A window is labelled by its class,
//! padded with spaces to a width shared by all windows on offer, followed
//! by its title, so that the titles line up in one column.

use crate::entity::{
    window_views, workspace_views, Entity, EntityView, Window, WindowView, Workspace,
    WorkspaceView,
};
use crate::mapping::{
    distinct_labels, labels_of, lemma_distinct_labels_kept, lemma_labels_of_contains,
    lemma_map_of_contains, map_of, Mapping, Pair,
};
use vstd::prelude::*;

verus! {

/// Number of columns left between the longest class and the titles.
pub const CLASS_MARGIN: usize = 5;

/// `n` spaces.
pub open spec fn spaces(n: nat) -> Seq<char> {
    Seq::new(n, |i: int| ' ')
}

impl WindowView {
    /// The class of the window, or the empty text when it has none.
    pub open spec fn class_text(self) -> Seq<char> {
        match self.class_name {
            Some(class) => class,
            None => Seq::empty(),
        }
    }

    /// The class left-justified in a field of `width` characters, followed
    /// directly by the title. A class longer than the field is not cut.
    pub open spec fn padded(self, width: nat) -> Seq<char> {
        let class = self.class_text();
        let fill = if class.len() < width {
            (width - class.len()) as nat
        } else {
            0
        };
        class + spaces(fill) + self.name
    }
}

impl WorkspaceView {
    /// The label of a workspace: its name, unchanged.
    pub open spec fn label(self) -> Seq<char> {
        self.name
    }
}

/// The greatest class length, in characters, among `windows`; a window
/// without a class counts as length 0, and so does an empty list.
pub open spec fn max_class_len(windows: Seq<WindowView>) -> nat
    decreases windows.len(),
{
    if windows.len() == 0 {
        0
    } else {
        let rest = max_class_len(windows.drop_last());
        let here = windows.last().class_text().len();
        if here > rest {
            here
        } else {
            rest
        }
    }
}

/// The width of the class column for `windows`.
pub open spec fn class_width(windows: Seq<WindowView>) -> nat {
    max_class_len(windows) + CLASS_MARGIN as nat
}

/// Appends `n` spaces to `out`.
fn push_spaces(out: &mut String, n: usize)
    ensures
        final(out)@ == old(out)@ + spaces(n as nat),
{
    let mut pushed: usize = 0;
    while pushed < n
        invariant
            pushed <= n,
            out@ == old(out)@ + spaces(pushed as nat),
        decreases n - pushed,
    {
        out.push(' ');
        pushed += 1;
    }
}

impl Window {
    /// Builds the label for a class column that is `margin` characters
    /// wider than `longest`. The two widths are taken apart so that their
    /// sum need not fit a machine word.
    fn column_label(&self, longest: usize, margin: usize) -> (label: String)
        ensures
            label@ == self@.padded(longest as nat + margin as nat),
    {
        let mut label = match &self.class_name {
            Some(class) => class.clone(),
            None => String::new(),
        };
        let class_len: usize = label.as_str().unicode_len();
        let ghost class = label@;
        if class_len <= longest {
            push_spaces(&mut label, longest - class_len);
            push_spaces(&mut label, margin);
            assert(label@ =~= class + spaces((longest - class_len + margin) as nat));
        } else if class_len - longest < margin {
            push_spaces(&mut label, margin - (class_len - longest));
        } else {
            assert(label@ =~= class + spaces(0));
        }
        label.append(self.name.as_str());
        label
    }

    /// Builds the label of the window for a class column of `padding`
    /// characters.
    pub fn pad_format(&self, padding: usize) -> (label: String)
        ensures
            label@ == self@.padded(padding as nat),
    {
        self.column_label(padding, 0)
    }
}

impl Workspace {
    /// Builds the label of the workspace.
    pub fn label(&self) -> (label: String)
        ensures
            label@ == self@.label(),
    {
        self.name.clone()
    }
}

/// Computes the greatest class length among `windows`.
pub fn max_class_name_size(windows: &[Window]) -> (max: usize)
    ensures
        max == max_class_len(window_views(windows@)),
{
    let mut max: usize = 0;
    let mut i: usize = 0;
    while i < windows.len()
        invariant
            i <= windows.len(),
            max == max_class_len(window_views(windows@).take(i as int)),
        decreases windows.len() - i,
    {
        assert(window_views(windows@).take(i + 1).drop_last() =~= window_views(windows@).take(
            i as int,
        ));
        let here: usize = match &windows[i].class_name {
            Some(class) => class.as_str().unicode_len(),
            None => 0,
        };
        if here > max {
            max = here;
        }
        i += 1;
    }
    assert(window_views(windows@).take(windows@.len() as int) =~= window_views(windows@));
    max
}

/// Each workspace with its label.
pub open spec fn workspace_pairs(workspaces: Seq<WorkspaceView>) -> Seq<Pair> {
    workspaces.map_values(|w: WorkspaceView| (w.label(), EntityView::Workspace(w)))
}

/// Each window with its label for a class column of `width` characters.
pub open spec fn window_pairs(windows: Seq<WindowView>, width: nat) -> Seq<Pair> {
    windows.map_values(|w: WindowView| (w.padded(width), EntityView::Window(w)))
}

/// Builds the association offered in workspace mode: every workspace under
/// its own name.
pub fn workspace_mapping(workspaces: Vec<Workspace>) -> (mapping: Mapping)
    ensures
        mapping@ == map_of(workspace_pairs(workspace_views(workspaces@))),
        mapping.labels() == labels_of(workspace_pairs(workspace_views(workspaces@))),
{
    let ghost pairs = workspace_pairs(workspace_views(workspaces@));
    let mut mapping = Mapping::new();
    for workspace in it: workspaces
        invariant
            it.seq() == workspaces@,
            pairs == workspace_pairs(workspace_views(workspaces@)),
            mapping@ == map_of(pairs.take(it.index() as int)),
            mapping.labels() == labels_of(pairs.take(it.index() as int)),
    {
        proof {
            let i = it.index() as int;
            assert(pairs.take(i + 1).drop_last() =~= pairs.take(i));
            lemma_labels_of_contains(pairs.take(i), workspace@.label());
        }
        let label = workspace.label();
        mapping.insert(label, Entity::Workspace(workspace));
    }
    assert(pairs.take(pairs.len() as int) =~= pairs);
    mapping
}

/// Builds the association offered in window mode: every window under its
/// class, padded to the shared class column, followed by its title.
pub fn window_mapping(windows: Vec<Window>) -> (mapping: Mapping)
    ensures
        mapping@ == map_of(
            window_pairs(window_views(windows@), class_width(window_views(windows@))),
        ),
        mapping.labels() == labels_of(
            window_pairs(window_views(windows@), class_width(window_views(windows@))),
        ),
{
    let longest: usize = max_class_name_size(&windows);
    let ghost width = class_width(window_views(windows@));
    let ghost pairs = window_pairs(window_views(windows@), width);
    let mut mapping = Mapping::new();
    for window in it: windows
        invariant
            it.seq() == windows@,
            width == longest + CLASS_MARGIN,
            pairs == window_pairs(window_views(windows@), width),
            mapping@ == map_of(pairs.take(it.index() as int)),
            mapping.labels() == labels_of(pairs.take(it.index() as int)),
    {
        proof {
            let i = it.index() as int;
            assert(pairs.take(i + 1).drop_last() =~= pairs.take(i));
            lemma_labels_of_contains(pairs.take(i), window@.padded(width));
        }
        let label = window.column_label(longest, CLASS_MARGIN);
        mapping.insert(label, Entity::Window(window));
    }
    assert(pairs.take(pairs.len() as int) =~= pairs);
    mapping
}

/// No class is longer than the greatest class length.
pub proof fn lemma_max_class_len_bounds(windows: Seq<WindowView>, i: int)
    requires
        0 <= i < windows.len(),
    ensures
        windows[i].class_text().len() <= max_class_len(windows),
    decreases windows.len(),
{
    if i < windows.len() - 1 {
        lemma_max_class_len_bounds(windows.drop_last(), i);
    }
}

/// The greatest class length is the length of the class of one of the
/// windows, unless there are none.
pub proof fn lemma_max_class_len_attained(windows: Seq<WindowView>)
    requires
        windows.len() > 0,
    ensures
        exists|i: int|
            0 <= i < windows.len() && (#[trigger] windows[i]).class_text().len() == max_class_len(
                windows,
            ),
    decreases windows.len(),
{
    let front = windows.drop_last();
    let last = windows.len() - 1;
    if front.len() == 0 || windows[last].class_text().len() > max_class_len(front) {
        assert(windows[last].class_text().len() == max_class_len(windows));
    } else {
        lemma_max_class_len_attained(front);
        let i = choose|i: int|
            0 <= i < front.len() && (#[trigger] front[i]).class_text().len() == max_class_len(
                front,
            );
        assert(windows[i].class_text().len() == max_class_len(windows));
    }
}

/// The layout of a label whose class fits the class column: the class,
/// then spaces up to the column width, then the title.
pub proof fn lemma_padded_layout(window: WindowView, width: nat)
    requires
        window.class_text().len() <= width,
    ensures
        window.padded(width).len() == width + window.name.len(),
        window.padded(width).take(width as int) == window.class_text() + spaces(
            (width - window.class_text().len()) as nat,
        ),
        window.padded(width).skip(width as int) == window.name,
{
}

/// The titles line up: in the label of every window on offer, exactly
/// `class_width` characters come before the title, namely the class and the
/// spaces that fill the column.
pub proof fn lemma_titles_line_up(windows: Seq<WindowView>, i: int)
    requires
        0 <= i < windows.len(),
    ensures
        ({
            let width = class_width(windows);
            let label = windows[i].padded(width);
            &&& windows[i].class_text().len() + CLASS_MARGIN <= width
            &&& label.len() == width + windows[i].name.len()
            &&& label.take(width as int) == windows[i].class_text() + spaces(
                (width - windows[i].class_text().len()) as nat,
            )
            &&& label.skip(width as int) == windows[i].name
        }),
{
    lemma_max_class_len_bounds(windows, i);
    lemma_padded_layout(windows[i], class_width(windows));
}

/// Two windows whose titles differ get different labels, whatever their
/// classes, as long as both classes fit the class column.
pub proof fn lemma_titles_tell_labels_apart(a: WindowView, b: WindowView, width: nat)
    requires
        a.class_text().len() <= width,
        b.class_text().len() <= width,
        a.name != b.name,
    ensures
        a.padded(width) != b.padded(width),
{
    // The title is what follows the first `width` characters of a label.
    lemma_padded_layout(a, width);
    lemma_padded_layout(b, width);
}

/// When the titles of the windows on offer are pairwise different, every
/// window is offered under a label of its own, in the order of the
/// windows, and that label stands for this window.
pub proof fn lemma_windows_with_distinct_titles(windows: Seq<WindowView>)
    requires
        forall|i: int, j: int|
            0 <= i < j < windows.len() ==> (#[trigger] windows[i]).name != (
            #[trigger] windows[j]).name,
    ensures
        ({
            let width = class_width(windows);
            let pairs = window_pairs(windows, width);
            &&& labels_of(pairs) == windows.map_values(|w: WindowView| w.padded(width))
            &&& forall|i: int|
                0 <= i < windows.len() ==> map_of(pairs).contains_key(
                    (#[trigger] windows[i]).padded(width),
                ) && map_of(pairs)[windows[i].padded(width)] == EntityView::Window(windows[i])
        }),
{
    let width = class_width(windows);
    let pairs = window_pairs(windows, width);
    assert(distinct_labels(pairs)) by {
        assert forall|i: int, j: int| 0 <= i < j < pairs.len() implies (#[trigger] pairs[i]).0
            != (#[trigger] pairs[j]).0 by {
            lemma_max_class_len_bounds(windows, i);
            lemma_max_class_len_bounds(windows, j);
            lemma_titles_tell_labels_apart(windows[i], windows[j], width);
        }
    }
    lemma_distinct_labels_kept(pairs);
    assert forall|i: int| 0 <= i < windows.len() implies map_of(pairs).contains_key(
        (#[trigger] windows[i]).padded(width),
    ) && map_of(pairs)[windows[i].padded(width)] == EntityView::Window(windows[i]) by {
        assert(pairs[i] == (windows[i].padded(width), EntityView::Window(windows[i])));
    }
}

/// In workspace mode the labels are the workspace names as they are: a
/// text is a label exactly if it is the name of a workspace, and it stands
/// for a workspace of that name.
pub proof fn lemma_workspace_labels_are_names(workspaces: Seq<WorkspaceView>, label: Seq<char>)
    ensures
        map_of(workspace_pairs(workspaces)).contains_key(label) <==> exists|i: int|
            0 <= i < workspaces.len() && (#[trigger] workspaces[i]).name == label,
        map_of(workspace_pairs(workspaces)).contains_key(label) ==> map_of(
            workspace_pairs(workspaces),
        )[label].selector() == label,
    decreases workspaces.len(),
{
    let pairs = workspace_pairs(workspaces);
    lemma_map_of_contains(pairs, label);
    if map_of(pairs).contains_key(label) {
        let i = choose|i: int| 0 <= i < pairs.len() && (#[trigger] pairs[i]).0 == label;
        assert(workspaces[i].name == label);
    }
    if exists|i: int| 0 <= i < workspaces.len() && (#[trigger] workspaces[i]).name == label {
        let i = choose|i: int|
            0 <= i < workspaces.len() && (#[trigger] workspaces[i]).name == label;
        assert(pairs[i].0 == label);
    }
    if workspaces.len() > 0 && map_of(pairs).contains_key(label) {
        let front = workspaces.drop_last();
        assert(pairs.drop_last() =~= workspace_pairs(front));
        if pairs.last().0 != label {
            lemma_workspace_labels_are_names(front, label);
        }
    }
}

/// When the workspace names are pairwise different, the labels offered are
/// the names, in the order of the workspaces.
pub proof fn lemma_workspaces_with_distinct_names(workspaces: Seq<WorkspaceView>)
    requires
        forall|i: int, j: int|
            0 <= i < j < workspaces.len() ==> (#[trigger] workspaces[i]).name != (
            #[trigger] workspaces[j]).name,
    ensures
        labels_of(workspace_pairs(workspaces)) == workspaces.map_values(|w: WorkspaceView| w.name),
{
    let pairs = workspace_pairs(workspaces);
    assert(distinct_labels(pairs)) by {
        assert forall|i: int, j: int| 0 <= i < j < pairs.len() implies (#[trigger] pairs[i]).0
            != (#[trigger] pairs[j]).0 by {
            assert(workspaces[i].name != workspaces[j].name);
        }
    }
    lemma_distinct_labels_kept(pairs);
}

} // verus!
