//! The command line's arguments.
use vstd::prelude::*;

verus! {

pub struct Args {
    pub cmd: Commands,
}

pub enum Commands {
    /// Compile a .tc file to EVM bytecode
    Build {
        /// Input .tc file
        file: String,
        /// Output as hex to stdout
        hex: bool,
        /// Output file (default: <input>.bin)
        output: Option<String>,
        /// Show verbose compilation steps
        verbose: bool,
    },
    /// Check for errors and warnings without compiling
    Lint {
        /// Input .tc file
        file: String,
    },
    /// Interactive wizard to generate a .tc file
    Init,
}

} // verus!
