//! The things a user can pick: application windows and workspaces.

use crate::text::{decimal, push_decimal};
use vstd::prelude::*;

verus! {

/// An application window, as reported by the window manager.
#[derive(Debug)]
pub struct Window {
    /// Identifier assigned by the window manager.
    pub id: i32,
    /// Title of the window.
    pub name: String,
    /// Class of the application that owns the window, when it has one.
    pub class_name: Option<String>,
}

/// Mathematical value of a [`Window`].
pub struct WindowView {
    pub id: int,
    pub name: Seq<char>,
    pub class_name: Option<Seq<char>>,
}

impl View for Window {
    type V = WindowView;

    open spec fn view(&self) -> WindowView {
        WindowView {
            id: self.id as int,
            name: self.name@,
            class_name: match self.class_name {
                Some(c) => Some(c@),
                None => None,
            },
        }
    }
}

/// The values of a sequence of windows.
pub open spec fn window_views(windows: Seq<Window>) -> Seq<WindowView> {
    windows.map_values(|w: Window| w@)
}

/// A named virtual desktop.
#[derive(Debug)]
pub struct Workspace {
    /// Name of the workspace; it is also how the manager addresses it.
    pub name: String,
}

/// Mathematical value of a [`Workspace`].
pub struct WorkspaceView {
    pub name: Seq<char>,
}

impl View for Workspace {
    type V = WorkspaceView;

    open spec fn view(&self) -> WorkspaceView {
        WorkspaceView { name: self.name@ }
    }
}

/// The values of a sequence of workspaces.
pub open spec fn workspace_views(workspaces: Seq<Workspace>) -> Seq<WorkspaceView> {
    workspaces.map_values(|w: Workspace| w@)
}

/// The selector expression that addresses the window with identifier `id`:
/// `[id="<id>"]`, with the identifier in decimal.
pub open spec fn window_selector(id: int) -> Seq<char> {
    "[id=\""@ + decimal(id) + "\"]"@
}

/// Anything the window manager can be told to act on.
pub trait Selectable {
    /// The selector expression that addresses `self` in a manager command.
    spec fn selector(&self) -> Seq<char>;

    /// Renders the selector expression.
    fn to_select_string(&self) -> (s: String)
        ensures
            s@ == self.selector(),
    ;
}

impl Selectable for Window {
    open spec fn selector(&self) -> Seq<char> {
        window_selector(self.id as int)
    }

    fn to_select_string(&self) -> (s: String) {
        let mut s = String::from_str("[id=\"");
        push_decimal(&mut s, self.id);
        s.append("\"]");
        s
    }
}

impl Selectable for Workspace {
    open spec fn selector(&self) -> Seq<char> {
        self.name@
    }

    fn to_select_string(&self) -> (s: String) {
        self.name.clone()
    }
}

/// A pickable target: one of the two kinds of selectable things.
#[derive(Debug)]
pub enum Entity {
    Window(Window),
    Workspace(Workspace),
}

/// Mathematical value of an [`Entity`].
pub enum EntityView {
    Window(WindowView),
    Workspace(WorkspaceView),
}

impl EntityView {
    /// The selector expression of the target.
    pub open spec fn selector(self) -> Seq<char> {
        match self {
            EntityView::Window(w) => window_selector(w.id),
            EntityView::Workspace(w) => w.name,
        }
    }
}

impl View for Entity {
    type V = EntityView;

    open spec fn view(&self) -> EntityView {
        match self {
            Entity::Window(w) => EntityView::Window(w@),
            Entity::Workspace(w) => EntityView::Workspace(w@),
        }
    }
}

impl Selectable for Entity {
    open spec fn selector(&self) -> Seq<char> {
        self@.selector()
    }

    fn to_select_string(&self) -> (s: String) {
        match self {
            Entity::Window(w) => w.to_select_string(),
            Entity::Workspace(w) => w.to_select_string(),
        }
    }
}

} // verus!
