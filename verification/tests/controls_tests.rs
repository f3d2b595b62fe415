use particle_sim::controls::{render_mode_message, toggle_clock, toggle_message, ToggleKeys, ViewToggles};
use particle_sim::demo::Demo;
use particle_sim::event::Event;

fn alert_text(e: Option<Event>) -> Option<String> {
    match e {
        Some(Event::Alert(m)) => Some(m),
        Some(Event::ResetSimulation) => panic!("unexpected reset"),
        None => None,
    }
}

#[test]
fn toggle_messages() {
    assert_eq!(toggle_message("Grid", true), "Grid: On");
    assert_eq!(toggle_message("Trails", false), "Trails: Off");
    assert_eq!(render_mode_message(true), "Render Mode: Cubes");
    assert_eq!(render_mode_message(false), "Render Mode: Spheres");
}

#[test]
fn clock_toggle_announces() {
    let (running, e) = toggle_clock(false);
    assert!(running);
    assert_eq!(alert_text(Some(e)).unwrap(), "Simulation Running");
    let (running, e) = toggle_clock(true);
    assert!(!running);
    assert_eq!(alert_text(Some(e)).unwrap(), "Simulation Paused");
}

#[test]
fn view_keys_flip_and_last_one_speaks() {
    let mut v = ViewToggles { show_trail: true, use_cubes: true, use_parametric: false };
    let e = v.press(ToggleKeys { trail: true, cubes: false, parametric: false });
    assert_eq!(alert_text(e).unwrap(), "Trails: Off");
    assert!(!v.show_trail);
    let e = v.press(ToggleKeys { trail: true, cubes: true, parametric: false });
    assert_eq!(alert_text(e).unwrap(), "Render Mode: Spheres");
    assert!(v.show_trail && !v.use_cubes);
    let e = v.press(ToggleKeys { trail: false, cubes: true, parametric: true });
    assert_eq!(alert_text(e).unwrap(), "Parametric Mode: On");
    assert!(v.use_cubes && v.use_parametric);
    let e = v.press(ToggleKeys { trail: false, cubes: false, parametric: false });
    assert!(e.is_none());
}

#[test]
fn demo_names() {
    assert_eq!(Demo::default() == Demo::Empty, true);
    assert_eq!(Demo::Gravity.name(), "Gravity");
    assert_eq!(Demo::Explosion.name(), "Explosion");
    assert_eq!(Demo::ExplosionGravity.name(), "Explosion + Gravity");
    assert_eq!(Demo::Vortex.name(), "Vortex");
    assert_eq!(Demo::Empty.name(), "None");
}
