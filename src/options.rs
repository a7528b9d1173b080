//! Turning the command-line tokens into a validated configuration, or into a
//! usage signal: no message for a help request, a message for an error.
use crate::decimal::{parse_u8, spec_parse_u8};
use vstd::prelude::*;

verus! {

/// What one run of the generator is asked to do.
#[derive(PartialEq, Eq, Structural, Clone, Copy, Debug)]
pub struct CliOptions {
    /// Characters in each password.
    pub length: u8,
    /// Number of passwords.
    pub count: u8,
    /// Whether `a`..=`z` may be drawn.
    pub lowercase: bool,
    /// Whether `A`..=`Z` may be drawn.
    pub uppercase: bool,
    /// Whether `0`..=`9` may be drawn.
    pub numbers: bool,
}

impl CliOptions {
    /// A configuration that generation can run on: positive length and count,
    /// and at least one character class.
    pub open spec fn valid(self) -> bool {
        self.length >= 1 && self.count >= 1 && (self.lowercase || self.uppercase || self.numbers)
    }
}

/// The configuration when no flag is given: ten characters, one password, all
/// three classes.
pub open spec fn default_options() -> CliOptions {
    CliOptions { length: 10, count: 1, lowercase: true, uppercase: true, numbers: true }
}

/// The message for a token that is not a flag.
pub open spec fn argument_error(arg: Seq<char>) -> Seq<char> {
    "wrong argument ("@ + arg + ")"@
}

/// The message for a flag whose parameter is missing or not acceptable.
pub open spec fn parameter_error(flag: Seq<char>) -> Seq<char> {
    "wrong parameter for arg ("@ + flag + ")"@
}

/// A parameter of `-t`: not empty, and made of the letters `l`, `u`, `n` only.
pub open spec fn valid_class_letters(t: Seq<char>) -> bool {
    t.len() > 0 && forall|k: int| 0 <= k < t.len() ==> (#[trigger] t[k] == 'l' || t[k] == 'u' || t[k]
        == 'n')
}

/// Whether the letter `c` occurs among the first `n` characters of `t`.
pub open spec fn has_letter(t: Seq<char>, n: int, c: char) -> bool {
    exists|k: int| 0 <= k < n && #[trigger] t[k] == c
}

/// The classes that a valid parameter of `-t` selects, with length and count
/// taken from `st`.
pub open spec fn with_classes(st: CliOptions, t: Seq<char>) -> CliOptions {
    CliOptions {
        length: st.length,
        count: st.count,
        lowercase: has_letter(t, t.len() as int, 'l'),
        uppercase: has_letter(t, t.len() as int, 'u'),
        numbers: has_letter(t, t.len() as int, 'n'),
    }
}

/// The outcome of reading `args` from position `i` on, with `st` the
/// configuration built from the tokens before it. Tokens are read left to
/// right; a flag takes the next token as its parameter whatever it looks like;
/// the first `-h` or error ends the reading.
pub open spec fn parse_from(args: Seq<Seq<char>>, i: int, st: CliOptions) -> Result<
    CliOptions,
    Option<Seq<char>>,
>
    decreases args.len() - i,
{
    if i < 0 || i >= args.len() {
        Ok(st)
    } else {
        let a = args[i];
        if a == "-h"@ {
            Err(None)
        } else if a == "-l"@ || a == "-c"@ || a == "-t"@ {
            if i + 1 >= args.len() {
                Err(Some(parameter_error(a)))
            } else {
                let p = args[i + 1];
                if a == "-t"@ {
                    if valid_class_letters(p) {
                        parse_from(args, i + 2, with_classes(st, p))
                    } else {
                        Err(Some(parameter_error(a)))
                    }
                } else {
                    match spec_parse_u8(p) {
                        Some(v) => if v < 1 {
                            Err(Some(parameter_error(a)))
                        } else if a == "-l"@ {
                            parse_from(args, i + 2, CliOptions { length: v, ..st })
                        } else {
                            parse_from(args, i + 2, CliOptions { count: v, ..st })
                        },
                        None => Err(Some(parameter_error(a))),
                    }
                }
            }
        } else {
            Err(Some(argument_error(a)))
        }
    }
}

/// The outcome of reading the whole token sequence.
pub open spec fn spec_parse(args: Seq<Seq<char>>) -> Result<CliOptions, Option<Seq<char>>> {
    parse_from(args, 0, default_options())
}

/// Reading on from a valid configuration ends, where it succeeds, in a valid
/// configuration.
proof fn lemma_parse_from_valid(args: Seq<Seq<char>>, i: int, st: CliOptions)
    requires
        st.valid(),
    ensures
        parse_from(args, i, st) matches Ok(c) ==> c.valid(),
    decreases args.len() - i,
{
    if 0 <= i < args.len() && i + 1 < args.len() {
        let a = args[i];
        let p = args[i + 1];
        if a == "-t"@ && valid_class_letters(p) {
            let c = p[0];
            assert(has_letter(p, p.len() as int, c));
            lemma_parse_from_valid(args, i + 2, with_classes(st, p));
        } else if let Some(v) = spec_parse_u8(p) {
            if v >= 1 {
                lemma_parse_from_valid(args, i + 2, CliOptions { length: v, ..st });
                lemma_parse_from_valid(args, i + 2, CliOptions { count: v, ..st });
            }
        }
    }
}

/// Whatever the tokens, a successful parse gives a valid configuration: a
/// positive length and count and at least one character class.
pub proof fn lemma_parse_valid(args: Seq<Seq<char>>)
    ensures
        spec_parse(args) matches Ok(c) ==> c.valid(),
{
    lemma_parse_from_valid(args, 0, default_options());
}

/// Parsing is a function of the tokens alone: the same tokens, parsed twice,
/// give the same configuration or the same signal.
pub proof fn lemma_parse_deterministic(a: Seq<String>, b: Seq<String>)
    requires
        token_chars(a) == token_chars(b),
    ensures
        spec_parse(token_chars(a)) == spec_parse(token_chars(b)),
{
}

/// The characters of each token.
pub open spec fn token_chars(args: Seq<String>) -> Seq<Seq<char>> {
    args.map_values(|s: String| s@)
}

/// A parse result with each message taken as its characters.
pub open spec fn result_view(r: Result<CliOptions, Option<String>>) -> Result<
    CliOptions,
    Option<Seq<char>>,
> {
    match r {
        Ok(c) => Ok(c),
        Err(None) => Err(None),
        Err(Some(m)) => Err(Some(m@)),
    }
}

fn argument_error_message(arg: &String) -> (r: String)
    ensures
        r@ == argument_error(arg@),
{
    let mut m = String::from_str("wrong argument (");
    m.append(arg.as_str());
    m.append(")");
    m
}

fn parameter_error_message(flag: &String) -> (r: String)
    ensures
        r@ == parameter_error(flag@),
{
    let mut m = String::from_str("wrong parameter for arg (");
    m.append(flag.as_str());
    m.append(")");
    m
}

/// Reads a parameter of `-t`: the classes it selects, or `None` where it is
/// empty or holds a letter other than `l`, `u`, `n`.
fn parse_classes(t: &str) -> (r: Option<(bool, bool, bool)>)
    ensures
        valid_class_letters(t@) <==> r.is_some(),
        r matches Some((l, u, n)) ==> l == has_letter(t@, t@.len() as int, 'l') && u
            == has_letter(t@, t@.len() as int, 'u') && n == has_letter(
            t@,
            t@.len() as int,
            'n',
        ),
{
    let len = t.unicode_len();
    if len == 0 {
        return None;
    }
    let mut lowercase = false;
    let mut uppercase = false;
    let mut numbers = false;
    let mut j: usize = 0;
    while j < len
        invariant
            j <= len,
            len == t@.len(),
            forall|k: int| 0 <= k < j ==> (#[trigger] t@[k] == 'l' || t@[k] == 'u' || t@[k]
                == 'n'),
            lowercase == has_letter(t@, j as int, 'l'),
            uppercase == has_letter(t@, j as int, 'u'),
            numbers == has_letter(t@, j as int, 'n'),
        decreases len - j,
    {
        let c = t.get_char(j);
        if c == 'l' {
            lowercase = true;
        } else if c == 'u' {
            uppercase = true;
        } else if c == 'n' {
            numbers = true;
        } else {
            return None;
        }
        assert(has_letter(t@, j + 1, 'l') == (has_letter(t@, j as int, 'l') || c == 'l'));
        assert(has_letter(t@, j + 1, 'u') == (has_letter(t@, j as int, 'u') || c == 'u'));
        assert(has_letter(t@, j + 1, 'n') == (has_letter(t@, j as int, 'n') || c == 'n'));
        j = j + 1;
    }
    Some((lowercase, uppercase, numbers))
}

/// Reads the command-line tokens (the program's name not among them) into a
/// configuration. `-l <n>` and `-c <n>` set the length and the count, each a
/// number from 1 to 255; `-t <letters>` selects the character classes (`l`
/// lowercase, `u` uppercase, `n` digits); the defaults are ten characters, one
/// password, all classes. `-h` gives `Err(None)`; a missing or unacceptable
/// parameter gives `Err(Some(..))` naming the flag, any other token
/// `Err(Some(..))` naming that token. Reading stops at the first of these.
pub fn parse_options(args: Vec<String>) -> (r: Result<CliOptions, Option<String>>)
    ensures
        result_view(r) == spec_parse(token_chars(args@)),
        r matches Ok(c) ==> c.valid(),
{
    proof {
        lemma_parse_valid(token_chars(args@));
    }
    let ghost toks = token_chars(args@);
    let mut st = CliOptions {
        length: 10,
        count: 1,
        lowercase: true,
        uppercase: true,
        numbers: true,
    };
    let help = String::from_str("-h");
    let length_flag = String::from_str("-l");
    let count_flag = String::from_str("-c");
    let type_flag = String::from_str("-t");
    let mut i: usize = 0;
    while i < args.len()
        invariant
            i <= args.len(),
            toks == token_chars(args@),
            help@ == "-h"@,
            length_flag@ == "-l"@,
            count_flag@ == "-c"@,
            type_flag@ == "-t"@,
            spec_parse(toks) == parse_from(toks, i as int, st),
        decreases args.len() - i,
    {
        let arg = &args[i];
        assert(toks[i as int] == arg@);
        if *arg == help {
            return Err(None);
        } else if *arg == length_flag || *arg == count_flag || *arg == type_flag {
            if i + 1 >= args.len() {
                return Err(Some(parameter_error_message(arg)));
            }
            let p = &args[i + 1];
            assert(toks[i + 1] == p@);
            if *arg == type_flag {
                match parse_classes(p.as_str()) {
                    Some((l, u, n)) => {
                        st = CliOptions { lowercase: l, uppercase: u, numbers: n, ..st };
                    },
                    None => {
                        return Err(Some(parameter_error_message(arg)));
                    },
                }
            } else {
                match parse_u8(p.as_str()) {
                    Some(v) => {
                        if v < 1 {
                            return Err(Some(parameter_error_message(arg)));
                        } else if *arg == length_flag {
                            st = CliOptions { length: v, ..st };
                        } else {
                            st = CliOptions { count: v, ..st };
                        }
                    },
                    None => {
                        return Err(Some(parameter_error_message(arg)));
                    },
                }
            }
            i = i + 2;
        } else {
            return Err(Some(argument_error_message(arg)));
        }
    }
    Ok(st)
}

} // verus!
