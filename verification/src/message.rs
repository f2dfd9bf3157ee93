//! Plain message data for the widget layer around the engine.
//!
//! Widgets communicate by passing messages; these are the data-only
//! message payloads and input-event types that carry no floating-point
//! fields.  Handles refer to widgets through the same generational-arena
//! scheme the rest of the crate uses.  Nothing here is evaluated by the
//! animation machine; the definitions exist so that tooling built around
//! the core can exchange them as values.

use vstd::prelude::*;
use crate::pool::Handle;

verus! {

/// Which way a message travels: as a request for changes in a widget, or
/// as a widget's response that something actually changed.
#[derive(Debug, Copy, Clone, PartialOrd, PartialEq, Hash, Structural)]
pub enum MessageDirection {
    /// A request for changes in a widget.
    ToWidget,
    /// A widget's response that something actually changed.
    FromWidget,
}

impl MessageDirection {
    /// Reverses direction.
    pub fn reverse(self) -> (r: Self)
        ensures
            self is ToWidget ==> r is FromWidget,
            self is FromWidget ==> r is ToWidget,
    {
        match self {
            Self::ToWidget => Self::FromWidget,
            Self::FromWidget => Self::ToWidget,
        }
    }
}

/// Whether a button is held down or released.
#[derive(Debug, Hash, Ord, PartialOrd, PartialEq, Eq, Clone, Copy, Structural)]
pub enum ButtonState {
    Pressed,
    Released,
}

/// A mouse button.
#[derive(Debug, Hash, Ord, PartialOrd, PartialEq, Eq, Clone, Copy, Structural)]
pub enum MouseButton {
    Left,
    Right,
    Middle,
    Other(u16),
}

/// The keyboard modifier keys held during an input event.
#[derive(Debug, Hash, Ord, PartialOrd, PartialEq, Eq, Clone, Copy, Structural)]
pub struct KeyboardModifiers {
    pub alt: bool,
    pub shift: bool,
    pub control: bool,
    pub system: bool,
}

impl KeyboardModifiers {
    /// Whether no modifier key is held.
    pub fn is_none(self) -> (r: bool)
        ensures
            r == (!self.shift && !self.control && !self.alt && !self.system),
    {
        !self.shift && !self.control && !self.alt && !self.system
    }
}

impl Default for KeyboardModifiers {
    /// No modifier key held.
    fn default() -> (r: Self)
        ensures
            !r.alt && !r.shift && !r.control && !r.system,
    {
        KeyboardModifiers { alt: false, shift: false, control: false, system: false }
    }
}

/// A key on the keyboard.
#[derive(Debug, Hash, Ord, PartialOrd, PartialEq, Eq, Clone, Copy, Structural)]
pub enum KeyCode {
    Key1,
    Key2,
    Key3,
    Key4,
    Key5,
    Key6,
    Key7,
    Key8,
    Key9,
    Key0,
    A,
    B,
    C,
    D,
    E,
    F,
    G,
    H,
    I,
    J,
    K,
    L,
    M,
    N,
    O,
    P,
    Q,
    R,
    S,
    T,
    U,
    V,
    W,
    X,
    Y,
    Z,
    Escape,
    F1,
    F2,
    F3,
    F4,
    F5,
    F6,
    F7,
    F8,
    F9,
    F10,
    F11,
    F12,
    Snapshot,
    Scroll,
    Pause,
    Insert,
    Home,
    Delete,
    End,
    PageDown,
    PageUp,
    Left,
    Up,
    Right,
    Down,
    Backspace,
    Return,
    Space,
    Numlock,
    Numpad0,
    Numpad1,
    Numpad2,
    Numpad3,
    Numpad4,
    Numpad5,
    Numpad6,
    Numpad7,
    Numpad8,
    Numpad9,
    NumpadAdd,
    NumpadSubtract,
    NumpadMultiply,
    NumpadDivide,
    NumpadDecimal,
    NumpadComma,
    NumpadEnter,
    NumpadEquals,
    Apostrophe,
    Backslash,
    Colon,
    Comma,
    Equals,
    Grave,
    LAlt,
    LBracket,
    LControl,
    LShift,
    LWin,
    Minus,
    Mute,
    Period,
    Plus,
    RAlt,
    RBracket,
    RControl,
    RShift,
    RWin,
    Semicolon,
    Slash,
    Tab,
    VolumeDown,
    VolumeUp,
    Copy,
    Paste,
    Cut,
    Asterisk,
}

/// The mouse cursor shape a widget asks for.
#[derive(Debug, Copy, Clone, PartialEq, Eq, Hash, Structural)]
pub enum CursorIcon {
    Default,
    Crosshair,
    Hand,
    Arrow,
    Move,
    Text,
    Wait,
    Help,
    Progress,
    NotAllowed,
    ContextMenu,
    Cell,
    VerticalText,
    Alias,
    Copy,
    NoDrop,
    Grab,
    Grabbing,
    AllScroll,
    ZoomIn,
    ZoomOut,
}

impl Default for CursorIcon {
    /// The platform's default cursor.
    fn default() -> (r: Self)
        ensures
            r is Default,
    {
        CursorIcon::Default
    }
}

/// Messages a button widget understands or reports.
#[derive(Debug, Clone, PartialEq, Eq, Structural)]
pub enum ButtonMessage {
    /// The button was clicked.
    Click,
    /// A request to change the button's content widget.
    Content(Handle),
}

/// Messages a check box widget understands or reports.
#[derive(Debug, Clone, PartialEq, Eq, Structural)]
pub enum CheckBoxMessage {
    /// A request to set, clear or indeterminate the check mark.
    Check(Option<bool>),
}

/// Messages an expander widget understands or reports.
#[derive(Debug, Clone, PartialEq, Eq, Structural)]
pub enum ExpanderMessage {
    /// A request to expand or collapse the content.
    Expand(bool),
}

/// Messages a scroll viewer widget understands or reports.
#[derive(Debug, Clone, PartialEq, Eq, Structural)]
pub enum ScrollViewerMessage {
    /// A request to change the content widget.
    Content(Handle),
    /// A request to adjust the scroll values so the given widget is in view.
    BringIntoView(Handle),
}

/// Messages a list view widget understands or reports.
#[derive(Debug, Clone, PartialEq)]
pub enum ListViewMessage {
    /// The selection changed to the given item index.
    SelectionChanged(Option<usize>),
    /// A request to replace all items.
    Items(Vec<Handle>),
    /// A request to add one item.
    AddItem(Handle),
    /// A request to remove one item.
    RemoveItem(Handle),
}

/// Messages a dropdown list widget understands or reports.
#[derive(Debug, Clone, PartialEq)]
pub enum DropdownListMessage {
    /// The selection changed to the given item index.
    SelectionChanged(Option<usize>),
    /// A request to replace all items.
    Items(Vec<Handle>),
    /// A request to add one item.
    AddItem(Handle),
    /// A request to open the list.
    Open,
    /// A request to close the list.
    Close,
}

/// How expanding one tree item spreads over its relatives.
#[derive(Copy, Clone, PartialOrd, PartialEq, Ord, Eq, Hash, Debug, Structural)]
pub enum TreeExpansionStrategy {
    /// Expand a single item.
    Direct,
    /// Expand an item and its descendants.
    RecursiveDescendants,
    /// Expand an item and its ancestors (chain of parent trees).
    RecursiveAncestors,
}

/// Internal selection flag of a tree item.
#[derive(Debug, Copy, Clone, PartialEq, Structural)]
pub struct SelectionState(pub bool);

/// Messages a tree item widget understands or reports.
#[derive(Debug, Clone, PartialEq)]
pub enum TreeMessage {
    /// A request to expand or collapse the item.
    Expand { expand: bool, expansion_strategy: TreeExpansionStrategy },
    /// A request to add one child item.
    AddItem(Handle),
    /// A request to remove one child item.
    RemoveItem(Handle),
    /// A request to show or hide the expander mark.
    SetExpanderShown(bool),
    /// A request to replace all child items.
    SetItems(Vec<Handle>),
    /// Internal selection change; use the tree root's selection instead.
    Select(SelectionState),
}

/// Messages a tree root widget understands or reports.
#[derive(Debug, Clone, PartialEq)]
pub enum TreeRootMessage {
    /// A request to add one item.
    AddItem(Handle),
    /// A request to remove one item.
    RemoveItem(Handle),
    /// A request to replace all items.
    Items(Vec<Handle>),
    /// The set of selected items changed.
    Selected(Vec<Handle>),
    /// A request to expand every item.
    ExpandAll,
    /// A request to collapse every item.
    CollapseAll,
}

/// Messages a text box widget understands or reports.
#[derive(Debug, Clone, PartialEq)]
pub enum TextBoxMessage {
    /// A request to replace the text, or a report that it changed.
    Text(String),
}

/// Messages a menu widget understands or reports.
#[derive(Debug, Clone, PartialEq, Eq, Structural)]
pub enum MenuMessage {
    /// The menu became active.
    Activate,
    /// The menu became inactive.
    Deactivate,
}

/// Messages a menu item widget understands or reports.
#[derive(Debug, Clone, PartialEq, Eq, Structural)]
pub enum MenuItemMessage {
    /// The item's submenu opened.
    Open,
    /// The item's submenu closed.
    Close,
    /// The item was clicked.
    Click,
}

/// How a message box was dismissed.
#[derive(Debug, Clone, Copy, PartialEq, Eq, Structural)]
pub enum MessageBoxResult {
    /// Confirmed.
    Okay,
    /// Answered no.
    No,
    /// Answered yes.
    Yes,
    /// Cancelled.
    Cancel,
}

/// Messages a message box widget understands or reports.
#[derive(Debug, Clone, PartialEq)]
pub enum MessageBoxMessage {
    /// A request to open the box with an optional title and text.
    Open { title: Option<String>, text: Option<String> },
    /// The box closed with the given result.
    Close(MessageBoxResult),
}

/// A color as red, green, blue and alpha bytes.
#[derive(Debug, Clone, Copy, PartialEq, Eq, Hash, Structural)]
pub struct Color {
    pub r: u8,
    pub g: u8,
    pub b: u8,
    pub a: u8,
}

/// Messages a color field widget understands or reports.
#[derive(Debug, Clone, PartialEq, Eq, Structural)]
pub enum ColorFieldMessage {
    /// A request to set the color, or a report that it changed.
    Color(Color),
}

} // verus!
