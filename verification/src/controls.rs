use vstd::prelude::*;
use crate::event::Event;

verus! {

/// `On` or `Off`.
pub open spec fn on_off(on: bool) -> Seq<char> {
    if on {
        "On"@
    } else {
        "Off"@
    }
}

/// The banner text announcing that the setting `label` is now `on`:
/// `label: On` or `label: Off`.
pub open spec fn toggle_text(label: Seq<char>, on: bool) -> Seq<char> {
    label + ": "@ + on_off(on)
}

/// Builds `label: On` or `label: Off`.
pub fn toggle_message(label: &str, on: bool) -> (r: String)
    ensures
        r@ == toggle_text(label@, on),
{
    let mut s = String::from_str(label);
    s.append(": ");
    if on {
        s.append("On");
    } else {
        s.append("Off");
    }
    s
}

/// The banner text for the render mode: cubes or spheres.
pub open spec fn render_mode_text(use_cubes: bool) -> Seq<char> {
    "Render Mode: "@ + if use_cubes {
        "Cubes"@
    } else {
        "Spheres"@
    }
}

/// Builds the banner text for the render mode.
pub fn render_mode_message(use_cubes: bool) -> (r: String)
    ensures
        r@ == render_mode_text(use_cubes),
{
    let mut s = String::from_str("Render Mode: ");
    if use_cubes {
        s.append("Cubes");
    } else {
        s.append("Spheres");
    }
    s
}

/// The banner text after the simulation clock was toggled.
pub open spec fn clock_text(running: bool) -> Seq<char> {
    if running {
        "Simulation Running"@
    } else {
        "Simulation Paused"@
    }
}

/// Starts or stops the simulation clock: returns the new state of the clock
/// and the alert that announces it.
pub fn toggle_clock(running: bool) -> (r: (bool, Event))
    ensures
        r.0 == !running,
        r.1 matches Event::Alert(msg) && msg@ == clock_text(!running),
{
    let now = !running;
    if now {
        (now, Event::Alert(String::from_str("Simulation Running")))
    } else {
        (now, Event::Alert(String::from_str("Simulation Paused")))
    }
}

/// The three display switches of the particle view.
#[derive(Clone, Copy, PartialEq, Eq, Structural)]
pub struct ViewToggles {
    pub show_trail: bool,
    pub use_cubes: bool,
    pub use_parametric: bool,
}

/// Which of the view keys (trails, cubes, parametric mode) went down this
/// frame.
#[derive(Clone, Copy, PartialEq, Eq, Structural)]
pub struct ToggleKeys {
    pub trail: bool,
    pub cubes: bool,
    pub parametric: bool,
}

/// The banner that a frame's view keys produce: the setting flipped by the
/// last of the pressed keys (trails, then cubes, then parametric mode)
/// announces itself; no pressed key, no banner.
pub open spec fn toggles_banner(next: ViewToggles, keys: ToggleKeys) -> Option<Seq<char>> {
    if keys.parametric {
        Some(toggle_text("Parametric Mode"@, next.use_parametric))
    } else if keys.cubes {
        Some(render_mode_text(next.use_cubes))
    } else if keys.trail {
        Some(toggle_text("Trails"@, next.show_trail))
    } else {
        None
    }
}

impl ViewToggles {
    /// Flips every switch whose key was pressed and returns the alert to
    /// raise, if any key was pressed.
    pub fn press(&mut self, keys: ToggleKeys) -> (r: Option<Event>)
        ensures
            final(self).show_trail == (old(self).show_trail != keys.trail),
            final(self).use_cubes == (old(self).use_cubes != keys.cubes),
            final(self).use_parametric == (old(self).use_parametric != keys.parametric),
            match toggles_banner(*final(self), keys) {
                Some(text) => r matches Some(Event::Alert(msg)) && msg@ == text,
                None => r is None,
            },
    {
        let mut msg: Option<String> = None;
        if keys.trail {
            self.show_trail = !self.show_trail;
            msg = Some(toggle_message("Trails", self.show_trail));
        }
        if keys.cubes {
            self.use_cubes = !self.use_cubes;
            msg = Some(render_mode_message(self.use_cubes));
        }
        if keys.parametric {
            self.use_parametric = !self.use_parametric;
            msg = Some(toggle_message("Parametric Mode", self.use_parametric));
        }
        match msg {
            Some(m) => Some(Event::Alert(m)),
            None => None,
        }
    }
}

} // verus!
