use nxgui::color::RGBA8;
use nxgui::event::{fired_events, input_controller, ControllerId, Event, KeyEvent, KeyMode, RenderContext, TouchPoint, KEY_TOUCH};
use nxgui::gui::Gui;
use nxgui::object::{Button, Object};
use nxgui::render::SurfaceDesc;
use nxgui::scene::Scene;

const KEY_A: u64 = 1;
const KEY_B: u64 = 2;

fn ctx(down: u64, up: u64, held: u64) -> RenderContext {
    RenderContext::new(down, up, held, None)
}

#[test]
fn key_down_fires_only_when_down() {
    let mut b = Button::new(0, 0, 10, 10, String::from("ok"));
    b.on_keys_down(KEY_A, 7);
    assert_eq!(b.on_event_handle(&ctx(KEY_A, 0, 0)), vec![7]);
    assert_eq!(b.on_event_handle(&ctx(KEY_A | KEY_B, 0, 0)), vec![7]);
    assert_eq!(b.on_event_handle(&ctx(0, KEY_A, KEY_A)), Vec::<usize>::new());
    assert_eq!(b.on_event_handle(&ctx(KEY_B, 0, 0)), Vec::<usize>::new());
    // once per frame: two frames fire twice in all
    let mut count = 0;
    for _ in 0..2 {
        count += b.on_event_handle(&ctx(KEY_A, 0, 0)).len();
    }
    assert_eq!(count, 2);
}

#[test]
fn events_fire_in_registration_order() {
    let mut b = Button::new(0, 0, 10, 10, String::new());
    b.on_keys_held(KEY_B, 3);
    b.on_keys_up(KEY_A, 1);
    b.on_keys_down(KEY_A | KEY_B, 2);
    b.on_keys_down(KEY_A, 4);
    assert_eq!(b.on_event_handle(&ctx(KEY_A, KEY_A, KEY_B)), vec![3, 1, 4]);
    assert_eq!(b.on_event_handle(&ctx(KEY_A | KEY_B, 0, 0)), vec![2, 4]);
    assert_eq!(b.get_registered_events().len(), 4);
}

#[test]
fn key_event_handle_selects_mask() {
    let e = KeyEvent::new(KEY_A | KEY_B, KeyMode::Up, 9);
    assert!(e.handle(&ctx(0, KEY_A | KEY_B, 0)));
    assert!(!e.handle(&ctx(KEY_A | KEY_B, KEY_A, KEY_A | KEY_B)));
    assert_eq!(e.get_callback(), 9);
    let events = vec![e, KeyEvent::new(0, KeyMode::Held, 5)];
    assert_eq!(fired_events(&events, &ctx(0, 0, 0)), vec![5]);
}

#[test]
fn touch_kept_only_while_touch_held() {
    let p = TouchPoint { x: 3, y: 4 };
    assert_eq!(RenderContext::new(0, 0, KEY_TOUCH, Some(p)).touch_data, Some(p));
    assert_eq!(RenderContext::new(0, 0, KEY_A, Some(p)).touch_data, None);
    assert!(RenderContext::needs_touch(KEY_TOUCH | KEY_A));
    assert!(!RenderContext::needs_touch(KEY_A));
}

#[test]
fn button_setters_and_bounds() {
    let mut b = Button::new(1, 2, 3, 4, String::from("a"));
    assert_eq!(b.get_click_bounds(), (1, 2, 3, 4));
    b.set_x(-5);
    b.set_y(6);
    b.set_width(7);
    b.set_height(8);
    b.set_text(String::from("label"));
    assert_eq!(b.get_position(), (-5, 6));
    assert_eq!(b.get_size(), (7, 8));
    assert_eq!((b.get_x(), b.get_y(), b.get_width(), b.get_height()), (-5, 6, 7, 8));
    assert_eq!(b.get_text(), "label");
}

#[test]
fn scene_keeps_insertion_order() {
    let mut s = Scene::new();
    s.add_object(Button::new(1, 0, 1, 1, String::new()));
    s.add_object(Button::new(2, 0, 1, 1, String::new()));
    assert_eq!(s.len(), 2);
    assert_eq!(s.get_objects()[0].get_x(), 1);
    assert_eq!(s.get_objects()[1].get_x(), 2);
    s.get_object_mut(0).set_x(9);
    assert_eq!(s.get_objects()[0].get_x(), 9);
}

#[test]
fn gui_frame_paints_scene_in_order() {
    let d = SurfaceDesc { width: 64, height: 32, color_format: 1, block_height_log2: 0 };
    let mut gui: Gui<Button> = Gui::new(&d);
    assert!(!gui.next_frame());
    gui.begin_show();
    assert!(!gui.next_frame());
    let mut scene = Scene::new();
    scene.add_object(Button::new(0, 0, 20, 20, String::from("one")));
    scene.add_object(Button::new(10, 10, 20, 20, String::from("two")));
    gui.add_scene(scene);
    gui.set_clear_color(RGBA8::new_rgb(0, 0, 0));
    assert!(gui.next_frame());
    assert_eq!(gui.object_count(), 2);
    gui.render_frame();
    let button = RGBA8::new_rgb(0xFF, 0, 0xFF).encode();
    let r = gui.get_renderer();
    assert_eq!(r.pixel(15, 15), button);
    assert_eq!(r.pixel(5, 5), button);
    assert_eq!(r.pixel(25, 25), button);
    assert_eq!(r.pixel(40, 5), RGBA8::new_rgb(0, 0, 0).encode());
    let mut out = vec![0u32; r.buffer().len()];
    gui.end_frame(&mut out);
    assert_eq!(out[0], button);
    gui.close();
    assert!(!gui.get_is_shown());
    assert!(!gui.next_frame());
}

#[test]
fn gui_dispatches_per_object() {
    let d = SurfaceDesc { width: 16, height: 8, color_format: 1, block_height_log2: 0 };
    let mut gui: Gui<Button> = Gui::new(&d);
    let mut scene = Scene::new();
    let mut a = Button::new(0, 0, 1, 1, String::new());
    a.on_keys_down(KEY_A, 0);
    let mut b = Button::new(0, 0, 1, 1, String::new());
    b.on_keys_held(KEY_A, 1);
    scene.add_object(a);
    scene.add_object(b);
    gui.add_scene(scene);
    gui.begin_show();
    let c = ctx(KEY_A, 0, 0);
    assert_eq!(gui.dispatch_events(0, &c), vec![0]);
    assert_eq!(gui.dispatch_events(1, &c), Vec::<usize>::new());
    gui.active_object_mut(1).set_x(4);
    assert_eq!(gui.active_object_mut(1).get_x(), 4);
}

#[test]
fn player_one_preferred_when_connected() {
    assert_eq!(input_controller(true), ControllerId::Player1);
    assert_eq!(input_controller(false), ControllerId::Handheld);
}

#[test]
fn gui_renderer_follows_descriptor() {
    let d = SurfaceDesc { width: 40, height: 20, color_format: 3, block_height_log2: 1 };
    let mut gui: Gui<Button> = Gui::new(&d);
    let r = gui.get_renderer();
    assert_eq!(r.get_color_format(), 3);
    assert_eq!(r.get_aligned_height(), 32);
    assert_eq!(r.get_stride(), 192);
    assert!(r.buffer().iter().all(|w| *w == 0));
    gui.get_renderer_mut().draw_single(1, 1, RGBA8::new_rgb(5, 6, 7));
    assert_eq!(gui.get_renderer().pixel(1, 1), RGBA8::new_rgb(5, 6, 7).encode());
}

#[test]
fn closed_gui_still_finishes_its_frame() {
    let d = SurfaceDesc { width: 16, height: 8, color_format: 1, block_height_log2: 0 };
    let mut gui: Gui<Button> = Gui::new(&d);
    let mut scene = Scene::new();
    scene.add_object(Button::new(0, 0, 2, 2, String::new()));
    gui.add_scene(scene);
    gui.begin_show();
    assert!(gui.next_frame());
    gui.close();
    assert_eq!(gui.object_count(), 1);
    gui.render_frame();
    assert_eq!(gui.get_renderer().pixel(0, 0), RGBA8::new_rgb(0xFF, 0, 0xFF).encode());
    assert!(!gui.next_frame());
}
