use anim_machine::message::{
    ButtonMessage, ButtonState, CheckBoxMessage, Color, ColorFieldMessage, CursorIcon,
    DropdownListMessage, ExpanderMessage, KeyCode, KeyboardModifiers, ListViewMessage,
    MenuItemMessage, MenuMessage, MessageBoxMessage, MessageBoxResult, MessageDirection,
    MouseButton, ScrollViewerMessage, SelectionState, TextBoxMessage, TreeExpansionStrategy,
    TreeMessage, TreeRootMessage,
};
use anim_machine::pool::Handle;

#[test]
fn direction_reverse_flips_and_round_trips() {
    assert_eq!(MessageDirection::ToWidget.reverse(), MessageDirection::FromWidget);
    assert_eq!(MessageDirection::FromWidget.reverse(), MessageDirection::ToWidget);
    assert_eq!(MessageDirection::ToWidget.reverse().reverse(), MessageDirection::ToWidget);
}

#[test]
fn keyboard_modifiers_is_none() {
    let none = KeyboardModifiers { alt: false, shift: false, control: false, system: false };
    assert!(none.is_none());
    let shift = KeyboardModifiers { shift: true, ..none };
    assert!(!shift.is_none());
    let system = KeyboardModifiers { system: true, ..none };
    assert!(!system.is_none());
}

#[test]
fn cursor_icon_default() {
    assert_eq!(CursorIcon::default(), CursorIcon::Default);
    assert_ne!(CursorIcon::default(), CursorIcon::Grab);
}

#[test]
fn keyboard_modifiers_default_holds_nothing() {
    assert!(KeyboardModifiers::default().is_none());
}

#[test]
fn message_payloads_compare_by_value() {
    let h = Handle { index: 5, generation: 2 };
    assert_eq!(ButtonMessage::Content(h), ButtonMessage::Content(h));
    assert_ne!(ButtonMessage::Content(h), ButtonMessage::Click);
    assert_eq!(CheckBoxMessage::Check(Some(true)), CheckBoxMessage::Check(Some(true)));
    assert_ne!(CheckBoxMessage::Check(Some(true)), CheckBoxMessage::Check(None));
    assert_eq!(ExpanderMessage::Expand(true), ExpanderMessage::Expand(true));
    assert_eq!(ScrollViewerMessage::BringIntoView(h), ScrollViewerMessage::BringIntoView(h));
    assert_eq!(
        ListViewMessage::SelectionChanged(Some(3)),
        ListViewMessage::SelectionChanged(Some(3))
    );
    assert_eq!(ListViewMessage::Items(vec![h]), ListViewMessage::Items(vec![h]));
    assert_ne!(DropdownListMessage::Open, DropdownListMessage::Close);
    assert_eq!(TextBoxMessage::Text(String::from("abc")), TextBoxMessage::Text(String::from("abc")));
    assert_ne!(MenuMessage::Activate, MenuMessage::Deactivate);
    assert_eq!(MenuItemMessage::Click, MenuItemMessage::Click);
}

#[test]
fn tree_messages_carry_their_payloads() {
    let h = Handle { index: 1, generation: 1 };
    let expand = TreeMessage::Expand {
        expand: true,
        expansion_strategy: TreeExpansionStrategy::RecursiveDescendants,
    };
    match expand {
        TreeMessage::Expand { expand, expansion_strategy } => {
            assert!(expand);
            assert_eq!(expansion_strategy, TreeExpansionStrategy::RecursiveDescendants);
        },
        _ => panic!("wrong variant"),
    }
    assert_eq!(TreeMessage::Select(SelectionState(true)), TreeMessage::Select(SelectionState(true)));
    assert_eq!(TreeRootMessage::Selected(vec![h]), TreeRootMessage::Selected(vec![h]));
    assert_ne!(TreeRootMessage::ExpandAll, TreeRootMessage::CollapseAll);
}

#[test]
fn input_event_types_compare_and_order() {
    assert!(ButtonState::Pressed < ButtonState::Released);
    assert_eq!(MouseButton::Other(3), MouseButton::Other(3));
    assert_ne!(MouseButton::Left, MouseButton::Right);
    assert!(KeyCode::A < KeyCode::B);
    assert_eq!(KeyCode::Space, KeyCode::Space);
}

#[test]
fn message_box_and_color_messages() {
    let open = MessageBoxMessage::Open { title: Some(String::from("t")), text: None };
    match open {
        MessageBoxMessage::Open { title, text } => {
            assert_eq!(title, Some(String::from("t")));
            assert!(text.is_none());
        },
        _ => panic!("wrong variant"),
    }
    assert_eq!(
        MessageBoxMessage::Close(MessageBoxResult::Okay),
        MessageBoxMessage::Close(MessageBoxResult::Okay)
    );
    assert_ne!(MessageBoxResult::Yes, MessageBoxResult::No);
    let c = Color { r: 1, g: 2, b: 3, a: 255 };
    assert_eq!(ColorFieldMessage::Color(c), ColorFieldMessage::Color(c));
}
