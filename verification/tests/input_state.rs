use bevl::ButtonEvent;
use bevl::Config;
use bevl::CycleEvents;
use bevl::InputContext;
use bevl::KeyEvent;
use bevl::Transition;
use bevl::Vec2;

fn empty_cycle() -> CycleEvents {
    CycleEvents {
        keyboard: Vec::new(),
        mouse_buttons: Vec::new(),
        mouse_motion: Vec::new(),
        cursor_motion: Vec::new(),
        resizes: Vec::new(),
        close_requested: false,
    }
}

fn key(k: u32, transition: Transition) -> KeyEvent {
    KeyEvent { key: k, scan_code: k, transition }
}

fn start() -> InputContext {
    InputContext::new(&Config { width: 800f32.to_bits(), height: 600f32.to_bits() })
}

#[test]
fn press_sets_down_and_pressed_without_repeat() {
    let mut ctx = start();
    let mut events = empty_cycle();
    events.keyboard.push(key(5, Transition::Pressed));
    let actions = ctx.ingest(events);
    assert!(ctx.is_key_down(5));
    assert!(ctx.is_key_pressed(5));
    assert!(!ctx.is_key_released(5));
    assert_eq!(actions.keyboard.len(), 1);
    assert!(!actions.keyboard[0].repeat);
    assert_eq!(actions.keyboard[0].key, 5);
    assert_eq!(actions.keyboard[0].scan_code, 5);
    assert_eq!(actions.keyboard[0].transition, Transition::Pressed);
}

#[test]
fn second_press_reports_repeat_and_stays_down() {
    let mut ctx = start();
    let mut first = empty_cycle();
    first.keyboard.push(key(5, Transition::Pressed));
    ctx.ingest(first);
    let mut second = empty_cycle();
    second.keyboard.push(key(5, Transition::Pressed));
    let actions = ctx.ingest(second);
    assert!(actions.keyboard[0].repeat);
    assert!(ctx.is_key_down(5));
}

#[test]
fn edge_flags_are_cycle_local() {
    let mut ctx = start();
    let mut first = empty_cycle();
    first.keyboard.push(key(5, Transition::Pressed));
    ctx.ingest(first);
    assert!(ctx.is_key_pressed(5));
    ctx.ingest(empty_cycle());
    assert!(!ctx.is_key_pressed(5));
    assert!(ctx.is_key_down(5));
    assert!(!ctx.is_key_released(5));
}

#[test]
fn release_clears_down_and_sets_released() {
    let mut ctx = start();
    let mut first = empty_cycle();
    first.keyboard.push(key(5, Transition::Pressed));
    ctx.ingest(first);
    let mut second = empty_cycle();
    second.keyboard.push(key(5, Transition::Released));
    ctx.ingest(second);
    assert!(!ctx.is_key_down(5));
    assert!(ctx.is_key_released(5));
    assert!(!ctx.is_key_pressed(5));
}

#[test]
fn press_and_release_in_one_cycle_ends_released() {
    let mut ctx = start();
    let mut events = empty_cycle();
    events.keyboard.push(key(5, Transition::Pressed));
    events.keyboard.push(key(5, Transition::Released));
    let actions = ctx.ingest(events);
    assert!(!ctx.is_key_down(5));
    assert!(ctx.is_key_released(5));
    assert!(!ctx.is_key_pressed(5));
    assert_eq!(actions.keyboard.len(), 2);
    assert!(!actions.keyboard[0].repeat);
    assert!(!actions.keyboard[1].repeat);
}

#[test]
fn unreferenced_key_and_button_read_all_false() {
    let mut ctx = start();
    assert!(!ctx.is_key_down(99));
    assert!(!ctx.is_key_pressed(99));
    assert!(!ctx.is_key_released(99));
    assert!(!ctx.is_mouse_button_down(3));
    assert!(!ctx.is_mouse_button_pressed(3));
    assert!(!ctx.is_mouse_button_released(3));
    let mut events = empty_cycle();
    events.keyboard.push(key(5, Transition::Pressed));
    events.mouse_buttons.push(ButtonEvent { button: 0, transition: Transition::Pressed });
    ctx.ingest(events);
    assert!(!ctx.is_key_down(99));
    assert!(!ctx.is_key_pressed(99));
    assert!(!ctx.is_key_released(99));
    assert!(!ctx.is_mouse_button_down(3));
    assert!(!ctx.is_mouse_button_pressed(3));
    assert!(!ctx.is_mouse_button_released(3));
}

#[test]
fn mouse_button_press_and_release() {
    let mut ctx = start();
    let mut first = empty_cycle();
    first.mouse_buttons.push(ButtonEvent { button: 1, transition: Transition::Pressed });
    let actions = ctx.ingest(first);
    assert!(ctx.is_mouse_button_down(1));
    assert!(ctx.is_mouse_button_pressed(1));
    assert!(!ctx.is_mouse_button_released(1));
    assert_eq!(actions.mouse_buttons.len(), 1);
    assert_eq!(actions.mouse_buttons[0].button, 1);
    let mut second = empty_cycle();
    second.mouse_buttons.push(ButtonEvent { button: 1, transition: Transition::Released });
    ctx.ingest(second);
    assert!(!ctx.is_mouse_button_down(1));
    assert!(ctx.is_mouse_button_released(1));
    assert!(!ctx.is_mouse_button_pressed(1));
}

#[test]
fn window_size_from_config_then_resize() {
    let mut ctx = start();
    let size = ctx.window_size();
    assert_eq!(f32::from_bits(size.x), 800.0);
    assert_eq!(f32::from_bits(size.y), 600.0);
    let new_size = Vec2 { x: 1024f32.to_bits(), y: 768f32.to_bits() };
    let mut events = empty_cycle();
    events.resizes.push(new_size);
    let actions = ctx.ingest(events);
    assert_eq!(ctx.window_size(), new_size);
    assert_eq!(actions.resizes.len(), 1);
    assert_eq!(actions.resizes[0], new_size);
}

#[test]
fn cursor_position_updates_but_motion_does_not() {
    let mut ctx = start();
    let pos = Vec2 { x: 400f32.to_bits(), y: 300f32.to_bits() };
    let mut first = empty_cycle();
    first.cursor_motion.push(pos);
    let actions = ctx.ingest(first);
    assert_eq!(ctx.mouse_position(), pos);
    assert_eq!(actions.cursor_motion.len(), 1);
    assert_eq!(actions.cursor_motion[0], pos);
    let delta = Vec2 { x: 5f32.to_bits(), y: (-2f32).to_bits() };
    let mut second = empty_cycle();
    second.mouse_motion.push(delta);
    let actions2 = ctx.ingest(second);
    assert_eq!(ctx.mouse_position(), pos);
    assert_eq!(actions2.mouse_motion.len(), 1);
    assert_eq!(actions2.mouse_motion[0], delta);
    assert_eq!(actions2.cursor_motion.len(), 0);
}

#[test]
fn mouse_position_starts_at_origin() {
    let ctx = start();
    assert_eq!(ctx.mouse_position(), Vec2 { x: 0, y: 0 });
}

#[test]
fn last_resize_of_a_cycle_wins() {
    let mut ctx = start();
    let a = Vec2 { x: 1f32.to_bits(), y: 2f32.to_bits() };
    let b = Vec2 { x: 3f32.to_bits(), y: 4f32.to_bits() };
    let mut events = empty_cycle();
    events.resizes.push(a);
    events.resizes.push(b);
    let actions = ctx.ingest(events);
    assert_eq!(ctx.window_size(), b);
    assert_eq!(actions.resizes, vec![a, b]);
}

#[test]
fn close_request_is_forwarded_to_the_callback() {
    let mut ctx = start();
    let actions = ctx.ingest(empty_cycle());
    assert!(!actions.invoke_close);
    let mut events = empty_cycle();
    events.close_requested = true;
    let actions2 = ctx.ingest(events);
    assert!(actions2.invoke_close);
}

#[test]
fn per_event_path_matches_the_cycle_path() {
    let mut ctx = start();
    ctx.begin_cycle();
    let repeat = ctx.apply_key_event(key(5, Transition::Pressed));
    assert!(!repeat);
    ctx.apply_mouse_button_event(ButtonEvent { button: 2, transition: Transition::Pressed });
    let pos = Vec2 { x: 10f32.to_bits(), y: 20f32.to_bits() };
    ctx.set_mouse_position(pos);
    let size = Vec2 { x: 30f32.to_bits(), y: 40f32.to_bits() };
    ctx.set_window_size(size);
    assert!(ctx.is_key_down(5) && ctx.is_key_pressed(5));
    assert!(ctx.is_mouse_button_down(2) && ctx.is_mouse_button_pressed(2));
    assert_eq!(ctx.mouse_position(), pos);
    assert_eq!(ctx.window_size(), size);
    ctx.begin_cycle();
    let repeat2 = ctx.apply_key_event(key(5, Transition::Pressed));
    assert!(repeat2);
}
