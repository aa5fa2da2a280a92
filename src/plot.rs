use vstd::prelude::*;
use vstd::string::*;

use crate::colors::{color_code, Color};
use crate::render::{paint, push_painted};

verus! {

/// The color of one series of a single-color chart, as an SGR parameter.
#[derive(Clone, Debug)]
pub struct Config {
    pub color: String,
}

impl Default for Config {
    fn default() -> (r: Config)
        ensures
            r.color@ == color_code(Color::White),
    {
        Config { color: String::from_str(Color::White.code()) }
    }
}

impl Config {
    pub fn color(self, color: &str) -> (r: Config)
        ensures
            r.color@ == color@,
    {
        Config { color: String::from_str(color) }
    }
}

/// `s` wrapped in the escape sequences that select the color with SGR
/// parameter `color` and reset it afterwards.
pub fn colored(s: &str, color: &str) -> (r: String)
    ensures
        r@ == paint(color@, s@),
{
    let mut out = String::new();
    push_painted(&mut out, color, s);
    out
}

} // verus!
