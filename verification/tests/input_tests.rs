use ft_vox::input::{character_key, key_from_name, EventDrivenInput, FrameDrivenInput, GameKey, InputState};
use ft_vox::player::{flight_speed, toggle_sprint, MoveSpeed, PlayerAction};
use ft_vox::workers::{worker_count, worker_count_for};

#[test]
fn input_state_starts_released() {
    let mut s = InputState::new();
    assert!(!s.key_w && !s.key_a && !s.key_s && !s.key_d);
    assert!(!s.key_shift && !s.key_space && !s.key_esc && !s.key_tab);
    s.set_key_state(GameKey::W, true);
    s.set_key_state(GameKey::Ctrl, true);
    assert!(s.key_w && !s.key_a);
    s.set_key_state(GameKey::W, false);
    assert!(!s.key_w);
}

#[test]
fn key_goes_down_then_up() {
    let mut events = EventDrivenInput::new();
    let mut frame = FrameDrivenInput::new();
    events.set_key_state(GameKey::Space, true);
    frame.update(&events);
    assert!(frame.get_key_pressed(GameKey::Space));
    assert!(frame.get_key_down(GameKey::Space));
    assert!(!frame.get_key_up(GameKey::Space));
    frame.update(&events);
    assert!(frame.get_key_pressed(GameKey::Space));
    assert!(!frame.get_key_down(GameKey::Space));
    events.set_key_state(GameKey::Space, false);
    frame.update(&events);
    assert!(!frame.get_key_pressed(GameKey::Space));
    assert!(frame.get_key_up(GameKey::Space));
    assert!(!frame.get_key_down(GameKey::Space));
}

#[test]
fn movement_direction_from_keys() {
    let mut events = EventDrivenInput::new();
    let mut frame = FrameDrivenInput::new();
    events.set_key_state(GameKey::W, true);
    events.set_key_state(GameKey::D, true);
    events.set_key_state(GameKey::Shift, true);
    frame.update(&events);
    assert_eq!(frame.movement_direction(), [1, 1, -1]);
    events.set_key_state(GameKey::S, true);
    events.set_key_state(GameKey::A, true);
    events.set_key_state(GameKey::Space, true);
    frame.update(&events);
    assert_eq!(frame.movement_direction(), [0, 0, 0]);
}

#[test]
fn sprint_toggles_speed() {
    let mut sprinting = false;
    let mut speed = MoveSpeed::Walk;
    toggle_sprint(&mut sprinting, &mut speed);
    assert!(sprinting);
    assert_eq!(speed, MoveSpeed::Sprint);
    toggle_sprint(&mut sprinting, &mut speed);
    assert!(!sprinting);
    assert_eq!(speed, MoveSpeed::Walk);
    assert_eq!(flight_speed(true), MoveSpeed::FtMinecraftFly);
    assert_eq!(flight_speed(false), MoveSpeed::Walk);
    assert_eq!(PlayerAction::DestroyBlock, PlayerAction::DestroyBlock);
}

#[test]
fn one_core_is_left_free() {
    assert_eq!(worker_count_for(1), 1);
    assert_eq!(worker_count_for(2), 1);
    assert_eq!(worker_count_for(8), 7);
    assert!(worker_count() >= 1);
}

#[test]
fn character_keys_fold_case() {
    assert_eq!(character_key("W"), Some(GameKey::W));
    assert_eq!(character_key("w"), Some(GameKey::W));
    assert_eq!(character_key("S"), Some(GameKey::S));
    assert_eq!(character_key("d"), Some(GameKey::D));
    assert_eq!(character_key("e"), None);
    assert_eq!(character_key("ww"), None);
}

#[test]
fn key_names_look_up_lower_case_letters_only() {
    assert_eq!(key_from_name("w"), Some(GameKey::W));
    assert_eq!(key_from_name("W"), None);
    assert_eq!(key_from_name("space"), Some(GameKey::Space));
    assert_eq!(key_from_name("shift"), Some(GameKey::Shift));
    assert_eq!(key_from_name("tab"), Some(GameKey::Tab));
    assert_eq!(key_from_name("esc"), Some(GameKey::Esc));
    assert_eq!(key_from_name("ctrl"), Some(GameKey::Ctrl));
    assert_eq!(key_from_name("s"), Some(GameKey::S));
    assert_eq!(key_from_name("x"), None);
}

#[test]
fn upper_case_press_is_read_by_lower_case_name() {
    let mut events = EventDrivenInput::new();
    let mut frame = FrameDrivenInput::new();
    events.set_key_state(character_key("W").unwrap(), true);
    frame.update(&events);
    frame.update(&events);
    let w = key_from_name("w").unwrap();
    assert!(frame.get_key_pressed(w));
    assert!(!frame.get_key_down(w));
    assert_eq!(key_from_name("W"), None);
}
