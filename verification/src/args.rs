//! The command line, one argument at a time: what an argument does to the
//! options, or what it asks the program to do.
use crate::options::NumberingMode;
use crate::options::Options;
use vstd::prelude::*;
use vstd::string::StringSliceAdditionalSpecFns;

verus! {

/// The byte `-`, which starts an option.
pub const DASH: u8 = 0x2d;

/// What one argument of the command line means.
#[derive(Debug, Clone, Copy)]
pub enum Parsed {
    /// The argument sets options: these are the options after it.
    Updated(Options),
    /// The argument names a file.
    File,
    /// The argument asks for the help text.
    Help,
    /// The argument asks for the version.
    Version,
    /// The argument is an option that does not exist.
    Invalid,
}

/// The options after one flag of a short option; `None` for a flag that
/// does not exist.
pub open spec fn with_flag(options: Options, flag: u8) -> Option<Options> {
    if flag == 0x41 {
        Some(Options { show_nonprinting: true, show_tabs: true, show_ends: true, ..options })
    } else if flag == 0x62 {
        Some(Options { number: NumberingMode::NonEmpty, ..options })
    } else if flag == 0x65 {
        Some(Options { show_nonprinting: true, show_ends: true, ..options })
    } else if flag == 0x45 {
        Some(Options { show_ends: true, ..options })
    } else if flag == 0x6e {
        Some(with_number_all(options))
    } else if flag == 0x73 {
        Some(Options { squeeze_blank: true, ..options })
    } else if flag == 0x74 {
        Some(Options { show_nonprinting: true, show_tabs: true, ..options })
    } else if flag == 0x54 {
        Some(Options { show_tabs: true, ..options })
    } else if flag == 0x75 {
        Some(options)
    } else if flag == 0x76 {
        Some(Options { show_nonprinting: true, ..options })
    } else {
        None
    }
}

/// Numbering of all lines, unless a numbering is already chosen: numbering
/// of nonempty lines overrides it.
pub open spec fn with_number_all(options: Options) -> Options {
    if options.number == NumberingMode::Off {
        Options { number: NumberingMode::All, ..options }
    } else {
        options
    }
}

/// The options after the flags of a short option, taken from left to
/// right; `None` where one of them does not exist.
pub open spec fn with_flags(options: Options, flags: Seq<u8>) -> Option<Options>
    decreases flags.len(),
{
    if flags.len() == 0 {
        Some(options)
    } else {
        match with_flags(options, flags.drop_last()) {
            Some(before) => with_flag(before, flags.last()),
            None => None,
        }
    }
}

/// What a long option means; `name` is what follows the two dashes.
pub open spec fn with_long(options: Options, name: Seq<u8>) -> Parsed {
    if name == "show-all".spec_bytes() {
        Parsed::Updated(
            Options { show_nonprinting: true, show_tabs: true, show_ends: true, ..options },
        )
    } else if name == "number-nonblank".spec_bytes() {
        Parsed::Updated(Options { number: NumberingMode::NonEmpty, ..options })
    } else if name == "show-ends".spec_bytes() {
        Parsed::Updated(Options { show_ends: true, ..options })
    } else if name == "number".spec_bytes() {
        Parsed::Updated(with_number_all(options))
    } else if name == "squeeze-blank".spec_bytes() {
        Parsed::Updated(Options { squeeze_blank: true, ..options })
    } else if name == "show-tabs".spec_bytes() {
        Parsed::Updated(Options { show_tabs: true, ..options })
    } else if name == "show-nonprinting".spec_bytes() {
        Parsed::Updated(Options { show_nonprinting: true, ..options })
    } else if name == "help".spec_bytes() {
        Parsed::Help
    } else if name == "version".spec_bytes() {
        Parsed::Version
    } else {
        Parsed::Invalid
    }
}

/// What the argument `arg` means where the options so far are `options`:
/// two dashes start a long option, one dash a run of flags, and anything
/// else names a file.
pub open spec fn parsed(arg: Seq<u8>, options: Options) -> Parsed {
    if arg.len() >= 2 && arg[0] == DASH && arg[1] == DASH {
        with_long(options, arg.skip(2))
    } else if arg.len() >= 1 && arg[0] == DASH {
        match with_flags(options, arg.skip(1)) {
            Some(after) => Parsed::Updated(after),
            None => Parsed::Invalid,
        }
    } else {
        Parsed::File
    }
}

/// A flag that does not exist spoils the whole run of flags, whatever
/// follows it.
pub proof fn lemma_flags_stay_invalid(options: Options, flags: Seq<u8>, k: int)
    requires
        0 <= k <= flags.len(),
        with_flags(options, flags.take(k)) is None,
    ensures
        with_flags(options, flags) is None,
    decreases flags.len(),
{
    if k == flags.len() {
        assert(flags.take(k) =~= flags);
    } else {
        assert(flags.drop_last().take(k) =~= flags.take(k));
        lemma_flags_stay_invalid(options, flags.drop_last(), k);
    }
}

/// Whether the bytes of `arg` from `from` on are those of `word`.
pub fn is_word(arg: &[u8], from: usize, word: &str) -> (r: bool)
    requires
        from <= arg@.len(),
    ensures
        r == (arg@.skip(from as int) == word.spec_bytes()),
{
    let text = word.as_bytes();
    if arg.len() - from != text.len() {
        return false;
    }
    let n: usize = arg.len();
    let mut i: usize = 0;
    while i < text.len()
        invariant
            n == arg@.len(),
            from + text@.len() == arg@.len(),
            i <= text@.len(),
            text@ == word.spec_bytes(),
            forall|j: int| 0 <= j < i ==> arg@[from + j] == text@[j],
        decreases text@.len() - i,
    {
        if arg[from + i] != text[i] {
            assert(arg@.skip(from as int)[i as int] != text@[i as int]);
            return false;
        }
        i += 1;
    }
    assert(arg@.skip(from as int) =~= text@);
    true
}

/// The options after one flag of a short option.
pub fn apply_flag(options: Options, flag: u8) -> (r: Option<Options>)
    ensures
        r == with_flag(options, flag),
{
    if flag == 0x41 {
        Some(options.show_nonprinting(true).show_tabs(true).show_ends(true))
    } else if flag == 0x62 {
        Some(options.number(NumberingMode::NonEmpty))
    } else if flag == 0x65 {
        Some(options.show_nonprinting(true).show_ends(true))
    } else if flag == 0x45 {
        Some(options.show_ends(true))
    } else if flag == 0x6e {
        Some(number_all(options))
    } else if flag == 0x73 {
        Some(options.squeeze_blank(true))
    } else if flag == 0x74 {
        Some(options.show_nonprinting(true).show_tabs(true))
    } else if flag == 0x54 {
        Some(options.show_tabs(true))
    } else if flag == 0x75 {
        Some(options)
    } else if flag == 0x76 {
        Some(options.show_nonprinting(true))
    } else {
        None
    }
}

/// Number all lines, unless a numbering is already chosen.
pub fn number_all(options: Options) -> (r: Options)
    ensures
        r == with_number_all(options),
{
    if options.number == NumberingMode::Off {
        options.number(NumberingMode::All)
    } else {
        options
    }
}

/// What the long option in `arg` means; its name starts after the two
/// dashes.
pub fn parse_long(arg: &[u8], options: Options) -> (r: Parsed)
    requires
        arg@.len() >= 2,
    ensures
        r == with_long(options, arg@.skip(2)),
{
    if is_word(arg, 2, "show-all") {
        Parsed::Updated(options.show_nonprinting(true).show_tabs(true).show_ends(true))
    } else if is_word(arg, 2, "number-nonblank") {
        Parsed::Updated(options.number(NumberingMode::NonEmpty))
    } else if is_word(arg, 2, "show-ends") {
        Parsed::Updated(options.show_ends(true))
    } else if is_word(arg, 2, "number") {
        Parsed::Updated(number_all(options))
    } else if is_word(arg, 2, "squeeze-blank") {
        Parsed::Updated(options.squeeze_blank(true))
    } else if is_word(arg, 2, "show-tabs") {
        Parsed::Updated(options.show_tabs(true))
    } else if is_word(arg, 2, "show-nonprinting") {
        Parsed::Updated(options.show_nonprinting(true))
    } else if is_word(arg, 2, "help") {
        Parsed::Help
    } else if is_word(arg, 2, "version") {
        Parsed::Version
    } else {
        Parsed::Invalid
    }
}

/// What one argument of the command line means, where the options set by
/// the arguments before it are `options`.
pub fn parse_arg(arg: &str, options: Options) -> (r: Parsed)
    ensures
        r == parsed(arg.spec_bytes(), options),
{
    let bytes = arg.as_bytes();
    if bytes.len() >= 2 && bytes[0] == DASH && bytes[1] == DASH {
        parse_long(bytes, options)
    } else if bytes.len() >= 1 && bytes[0] == DASH {
        let ghost flags = bytes@.skip(1);
        let mut current = options;
        let mut i: usize = 1;
        assert(flags.take(0) =~= Seq::<u8>::empty());
        while i < bytes.len()
            invariant
                1 <= i <= bytes@.len(),
                bytes@ == arg.spec_bytes(),
                bytes@[0] == DASH,
                !(bytes@.len() >= 2 && bytes@[1] == DASH),
                flags == bytes@.skip(1),
                with_flags(options, flags.take(i - 1)) == Some(current),
            decreases bytes@.len() - i,
        {
            proof {
                assert(flags.take(i as int).drop_last() =~= flags.take(i - 1));
                assert(flags.take(i as int).last() == bytes@[i as int]);
            }
            match apply_flag(current, bytes[i]) {
                Some(after) => {
                    current = after;
                },
                None => {
                    proof {
                        assert(with_flags(options, flags.take(i as int)) is None);
                        lemma_flags_stay_invalid(options, flags, i as int);
                    }
                    return Parsed::Invalid;
                },
            }
            i += 1;
        }
        assert(flags.take(i - 1) =~= flags);
        Parsed::Updated(current)
    } else {
        Parsed::File
    }
}

} // verus!
