use ws_oled_driver::button::{self, ButtonController, Keys};
use ws_oled_driver::hardware::Level::{High, Low};
use ws_oled_driver::joystick::{self, Contacts, Joystick};

fn buttons(key1: bool, key2: bool, key3: bool) -> Option<button::State> {
    let level = |high| if high { High } else { Low };
    ButtonController::new(Keys { key1: level(key1), key2: level(key2), key3: level(key3) }).read()
}

fn stick(up: bool, down: bool, left: bool, right: bool, click: bool) -> Option<joystick::State> {
    let level = |closed| if closed { Low } else { High };
    Joystick::new(Contacts {
        up: level(up),
        down: level(down),
        left: level(left),
        right: level(right),
        click: level(click),
    })
    .read()
}

#[test]
fn button_pins() {
    assert_eq!(button::KEY1_PIN, 21);
    assert_eq!(button::KEY2_PIN, 20);
    assert_eq!(button::KEY3_PIN, 16);
}

#[test]
fn no_button() {
    assert_eq!(buttons(false, false, false), None);
}

#[test]
fn each_button() {
    assert_eq!(buttons(true, false, false), Some(button::State::Key1));
    assert_eq!(buttons(false, true, false), Some(button::State::Key2));
    assert_eq!(buttons(false, false, true), Some(button::State::Key3));
}

#[test]
fn first_button_counts() {
    assert_eq!(buttons(true, true, true), Some(button::State::Key1));
    assert_eq!(buttons(true, false, true), Some(button::State::Key1));
    assert_eq!(buttons(false, true, true), Some(button::State::Key2));
}

#[test]
fn joystick_pins() {
    assert_eq!(joystick::KEY_UP_PIN, 6);
    assert_eq!(joystick::KEY_DOWN_PIN, 19);
    assert_eq!(joystick::KEY_LEFT_PIN, 5);
    assert_eq!(joystick::KEY_RIGHT_PIN, 26);
    assert_eq!(joystick::KEY_PRESS_PIN, 13);
}

#[test]
fn joystick_at_rest() {
    assert_eq!(stick(false, false, false, false, false), None);
}

#[test]
fn each_direction() {
    assert_eq!(stick(true, false, false, false, false), Some(joystick::State::Up));
    assert_eq!(stick(false, true, false, false, false), Some(joystick::State::Down));
    assert_eq!(stick(false, false, true, false, false), Some(joystick::State::Left));
    assert_eq!(stick(false, false, false, true, false), Some(joystick::State::Right));
    assert_eq!(stick(false, false, false, false, true), Some(joystick::State::Click));
}

#[test]
fn first_contact_counts() {
    assert_eq!(stick(true, true, true, true, true), Some(joystick::State::Up));
    assert_eq!(stick(false, true, false, true, true), Some(joystick::State::Down));
    assert_eq!(stick(false, false, true, true, true), Some(joystick::State::Left));
    assert_eq!(stick(false, false, false, true, true), Some(joystick::State::Right));
}
