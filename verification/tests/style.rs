use pycsort::{Button, ButtonStyle, Tint};

#[test]
fn action_button_is_orange_with_black_text() {
    assert_eq!(
        Button::Action.active(),
        ButtonStyle {
            background: Tint { red: 984, green: 573, blue: 235 },
            text: Tint { red: 0, green: 0, blue: 0 },
            border_radius: 10,
        }
    );
}

#[test]
fn default_button_is_dark_with_white_text() {
    assert_eq!(
        Button::Default.active(),
        ButtonStyle {
            background: Tint { red: 118, green: 161, blue: 231 },
            text: Tint { red: 1000, green: 1000, blue: 1000 },
            border_radius: 10,
        }
    );
}
