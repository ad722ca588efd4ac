//! Turning the picker's answer into a command for the window manager.

use crate::entity::{window_selector, EntityView, Selectable, WindowView, WorkspaceView};
use crate::labels::{
    class_width, lemma_windows_with_distinct_titles, lemma_workspace_labels_are_names,
    window_pairs, workspace_pairs,
};
use crate::mapping::{map_of, Mapping};
use crate::text::{
    all_whitespace, is_whitespace, join, join_strings, lemma_trim_strips_surroundings, trim,
    trimmed,
};
use vstd::prelude::*;

verus! {

/// What a run does with the picked target.
#[derive(Debug, Clone, Copy, PartialEq, Eq, Structural)]
pub enum Mode {
    /// Offer the workspaces and switch to the picked one.
    Workspace,
    /// Offer the windows and move the picked one to the current workspace.
    Move,
    /// Offer nothing and do nothing.
    Idle,
}

/// The mode selected by the two mode flags. The workspace flag wins when
/// both are given; without any flag the run is idle.
pub open spec fn mode_of(workspace: bool, move_window: bool) -> Mode {
    if workspace {
        Mode::Workspace
    } else if move_window {
        Mode::Move
    } else {
        Mode::Idle
    }
}

/// Selects the mode from the two mode flags.
pub fn select_mode(workspace: bool, move_window: bool) -> (mode: Mode)
    ensures
        mode == mode_of(workspace, move_window),
{
    if workspace {
        Mode::Workspace
    } else if move_window {
        Mode::Move
    } else {
        Mode::Idle
    }
}

/// The text handed to the picker: one label per line, in the order of the
/// association, with no line break after the last label.
pub open spec fn picker_lines(labels: Seq<Seq<char>>) -> Seq<char> {
    join(labels, "\n"@)
}

/// Builds the text handed to the picker.
pub fn picker_input(mapping: &Mapping) -> (input: String)
    ensures
        input@ == picker_lines(mapping.labels()),
{
    let keys = mapping.keys();
    join_strings(&keys, "\n")
}

/// The manager command for the picker's `output`, if there is one.
///
/// The chosen label is the output without surrounding whitespace. In
/// workspace mode an unknown label names a workspace itself, so that a new
/// workspace can be opened by typing its name. In move mode an unknown
/// label yields no command.
pub open spec fn command(
    mode: Mode,
    mapping: Map<Seq<char>, EntityView>,
    output: Seq<char>,
) -> Option<Seq<char>> {
    let chosen = trim(output);
    match mode {
        Mode::Workspace => Some(
            "workspace "@ + (if mapping.contains_key(chosen) {
                mapping[chosen].selector()
            } else {
                chosen
            }),
        ),
        Mode::Move => if mapping.contains_key(chosen) {
            Some(mapping[chosen].selector() + " move workspace current"@)
        } else {
            None
        },
        Mode::Idle => None,
    }
}

/// Computes the manager command for the picker's `output`.
pub fn dispatch(mode: Mode, mapping: &Mapping, output: &str) -> (issued: Option<String>)
    ensures
        match issued {
            Some(text) => command(mode, mapping@, output@) == Some(text@),
            None => command(mode, mapping@, output@) is None,
        },
{
    let chosen = trimmed(output);
    match mode {
        Mode::Workspace => {
            let mut text = String::from_str("workspace ");
            match mapping.get(chosen.as_str()) {
                Some(entity) => {
                    let selector = entity.to_select_string();
                    text.append(selector.as_str());
                },
                None => {
                    text.append(chosen.as_str());
                },
            }
            Some(text)
        },
        Mode::Move => {
            match mapping.get(chosen.as_str()) {
                Some(entity) => {
                    let mut text = entity.to_select_string();
                    text.append(" move workspace current");
                    Some(text)
                },
                None => None,
            }
        },
        Mode::Idle => None,
    }
}

/// In workspace mode a chosen text that is no label is itself the name of
/// the workspace to switch to.
pub proof fn lemma_unknown_workspace_is_named(
    mapping: Map<Seq<char>, EntityView>,
    output: Seq<char>,
)
    requires
        !mapping.contains_key(trim(output)),
    ensures
        command(Mode::Workspace, mapping, output) == Some("workspace "@ + trim(output)),
{
}

/// A chosen label is replaced by the selector of its target, in both modes.
pub proof fn lemma_known_label_is_resolved(mapping: Map<Seq<char>, EntityView>, output: Seq<char>)
    requires
        mapping.contains_key(trim(output)),
    ensures
        command(Mode::Workspace, mapping, output) == Some(
            "workspace "@ + mapping[trim(output)].selector(),
        ),
        command(Mode::Move, mapping, output) == Some(
            mapping[trim(output)].selector() + " move workspace current"@,
        ),
{
}

/// In move mode there is a command exactly if the chosen text is a label;
/// an idle run never has one.
pub proof fn lemma_no_command_without_target(
    mapping: Map<Seq<char>, EntityView>,
    output: Seq<char>,
)
    ensures
        command(Mode::Move, mapping, output) is None <==> !mapping.contains_key(trim(output)),
        command(Mode::Idle, mapping, output) is None,
{
}

/// With the workspaces on offer, the command switches to the workspace
/// whose name was chosen or typed, whether it exists or not.
pub proof fn lemma_workspace_is_switched_to(workspaces: Seq<WorkspaceView>, output: Seq<char>)
    ensures
        command(Mode::Workspace, map_of(workspace_pairs(workspaces)), output) == Some(
            "workspace "@ + trim(output),
        ),
{
    lemma_workspace_labels_are_names(workspaces, trim(output));
}

/// With windows of pairwise different titles on offer, choosing the label
/// of one of them moves that window, whatever whitespace the picker puts
/// around the label. The label itself must not start or end with
/// whitespace, since such characters are trimmed away with the rest.
pub proof fn lemma_picked_window_is_moved(
    windows: Seq<WindowView>,
    i: int,
    before: Seq<char>,
    after: Seq<char>,
)
    requires
        forall|i: int, j: int|
            0 <= i < j < windows.len() ==> (#[trigger] windows[i]).name != (
            #[trigger] windows[j]).name,
        0 <= i < windows.len(),
        all_whitespace(before),
        all_whitespace(after),
        !is_whitespace(windows[i].padded(class_width(windows)).first()),
        !is_whitespace(windows[i].padded(class_width(windows)).last()),
    ensures
        command(
            Mode::Move,
            map_of(window_pairs(windows, class_width(windows))),
            before + windows[i].padded(class_width(windows)) + after,
        ) == Some(window_selector(windows[i].id) + " move workspace current"@),
{
    let label = windows[i].padded(class_width(windows));
    lemma_trim_strips_surroundings(before, label, after);
    lemma_windows_with_distinct_titles(windows);
}

} // verus!
