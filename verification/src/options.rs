//! The formatting options of one run.
use vstd::prelude::*;
use vstd::string::is_ascii_spec_bytes;
use vstd::string::StringSliceAdditionalSpecFns;

verus! {

/// Whether and when a line-number field is put in front of a line.
#[derive(PartialEq, Eq, Structural, Debug, Clone, Copy)]
pub enum NumberingMode {
    /// Do not number lines
    Off,
    /// Number nonempty lines
    NonEmpty,
    /// Number all lines
    All,
}

/// Options to format the output
#[derive(Debug, Clone, Copy)]
pub struct Options {
    /// Setting to number lines
    pub number: NumberingMode,
    /// Display a `$` after the end of each line
    pub show_ends: bool,
    /// Suppress repeated empty output lines
    pub squeeze_blank: bool,
    /// Display TAB characters as `^I`
    pub show_tabs: bool,
    /// Use `^` and `M-` notation, except for LFD and TAB
    pub show_nonprinting: bool,
}

impl Options {
    /// The bytes that stand for a horizontal tab in the output.
    pub open spec fn tab_bytes(self) -> Seq<u8> {
        if self.show_tabs {
            seq![0x5eu8, 0x49u8]
        } else {
            seq![0x09u8]
        }
    }

    /// The bytes that end a line in the output.
    pub open spec fn end_of_line_bytes(self) -> Seq<u8> {
        if self.show_ends {
            seq![0x24u8, 0x0au8]
        } else {
            seq![0x0au8]
        }
    }

    /// No option asks for any annotation.
    pub open spec fn is_plain(self) -> bool {
        &&& !self.show_tabs
        &&& !self.show_nonprinting
        &&& !self.show_ends
        &&& !self.squeeze_blank
        &&& self.number == NumberingMode::Off
    }

    /// Create a new `Options` struct with default values
    pub fn new() -> (r: Self)
        ensures
            r.number == NumberingMode::Off,
            !r.show_ends,
            !r.squeeze_blank,
            !r.show_tabs,
            !r.show_nonprinting,
            r.is_plain(),
    {
        Self {
            number: NumberingMode::Off,
            show_ends: false,
            squeeze_blank: false,
            show_tabs: false,
            show_nonprinting: false,
        }
    }

    /// Update with the number option
    pub fn number(self, number: NumberingMode) -> (r: Self)
        ensures
            r == (Options { number, ..self }),
    {
        let mut r = self;
        r.number = number;
        r
    }

    /// Update with the show_ends option
    pub fn show_ends(self, show_ends: bool) -> (r: Self)
        ensures
            r == (Options { show_ends, ..self }),
    {
        let mut r = self;
        r.show_ends = show_ends;
        r
    }

    /// Update with the squeeze_blank option
    pub fn squeeze_blank(self, squeeze_blank: bool) -> (r: Self)
        ensures
            r == (Options { squeeze_blank, ..self }),
    {
        let mut r = self;
        r.squeeze_blank = squeeze_blank;
        r
    }

    /// Update with the show_tabs option
    pub fn show_tabs(self, show_tabs: bool) -> (r: Self)
        ensures
            r == (Options { show_tabs, ..self }),
    {
        let mut r = self;
        r.show_tabs = show_tabs;
        r
    }

    /// Update with the show_nonprinting option
    pub fn show_nonprinting(self, show_nonprinting: bool) -> (r: Self)
        ensures
            r == (Options { show_nonprinting, ..self }),
    {
        let mut r = self;
        r.show_nonprinting = show_nonprinting;
        r
    }

    /// The representation of a horizontal tab: `^I` where tabs are shown,
    /// else the tab itself.
    pub fn tab(&self) -> (r: &'static str)
        ensures
            r@ == (if self.show_tabs { "^I"@ } else { "\t"@ }),
            r.spec_bytes() == self.tab_bytes(),
    {
        proof {
            reveal_strlit("^I");
            reveal_strlit("\t");
            is_ascii_spec_bytes("^I");
            is_ascii_spec_bytes("\t");
        }
        if self.show_tabs {
            "^I"
        } else {
            "\t"
        }
    }

    /// The representation of a line end: `$` and a newline where ends are
    /// shown, else the newline alone.
    pub fn end_of_line(&self) -> (r: &'static str)
        ensures
            r@ == (if self.show_ends { "$\n"@ } else { "\n"@ }),
            r.spec_bytes() == self.end_of_line_bytes(),
    {
        proof {
            reveal_strlit("$\n");
            reveal_strlit("\n");
            is_ascii_spec_bytes("$\n");
            is_ascii_spec_bytes("\n");
        }
        if self.show_ends {
            "$\n"
        } else {
            "\n"
        }
    }

    /// We can write fast if we can simply copy the input to the output,
    /// without augmenting the output with e.g. line numbers.
    pub fn can_write_fast(&self) -> (r: bool)
        ensures
            r == self.is_plain(),
    {
        !(self.show_tabs || self.show_nonprinting || self.show_ends || self.squeeze_blank
            || self.number != NumberingMode::Off)
    }
}

} // verus!
