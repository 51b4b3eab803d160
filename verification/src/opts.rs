//! The options of a run, and the name of the file that a run writes.
use vstd::prelude::*;
use vstd::string::StringExecFns;
use crate::color::{mode_label, Mode, ModeView};
use crate::ditherer::Ditherer;
use crate::text::{decimal_digits, push_decimal};

verus! {

/// The options of a run.
#[derive(Debug, PartialEq, Clone)]
pub struct Opt {
    /// Whether to report progress.
    pub verbose: bool,
    /// The path of the image to read.
    pub input: String,
    /// The bit depth, from 1 to 7.
    pub bit_depth: u8,
    /// The path of the image to write, if one was given.
    pub output: Option<String>,
    /// The kernel.
    pub ditherer: Ditherer,
    /// The color mode.
    pub color_mode: Mode,
}

/// The name of the output file where none was given:
/// `{stem}_dithered_{kernel}_{mode}_{depth}.png`.
pub open spec fn default_output_name(stem: Seq<char>, ditherer: Ditherer, mode: ModeView, depth: u8) -> Seq<char> {
    stem + "_dithered_"@ + ditherer.spec_name() + "_"@ + mode_label(mode) + "_"@ + decimal_digits(depth as nat)
        + ".png"@
}

impl Opt {
    /// The path that the run writes to: the one that was given, or else the
    /// default name made from `stem`, the file stem of the input path.
    pub fn output_path(&self, stem: &str) -> (r: String)
        ensures
            r@ == match self.output {
                Some(path) => path@,
                None => default_output_name(stem@, self.ditherer, self.color_mode@, self.bit_depth),
            },
    {
        match &self.output {
            Some(path) => path.clone(),
            None => {
                let mut r = String::from_str(stem);
                r.append("_dithered_");
                r.append(self.ditherer.name());
                r.append("_");
                let label = self.color_mode.label();
                r.append(label.as_str());
                r.append("_");
                push_decimal(&mut r, self.bit_depth as u32);
                r.append(".png");
                r
            },
        }
    }
}

} // verus!
