//! Drawing passwords over the alphabet that a configuration selects.
use crate::options::CliOptions;
use vstd::prelude::*;

verus! {

/// A source of random numbers for the generator. Each call hands out the next
/// number of its stream; nothing is assumed of the numbers, so every property
/// of the generator holds whatever the source returns.
pub trait RandomSource {
    fn next_u32(&mut self) -> u32;
}

/// `'a'..='z'`.
pub open spec fn is_lowercase(c: char) -> bool {
    'a' <= c && c <= 'z'
}

/// `'A'..='Z'`.
pub open spec fn is_uppercase(c: char) -> bool {
    'A' <= c && c <= 'Z'
}

/// `'0'..='9'`.
pub open spec fn is_digit(c: char) -> bool {
    '0' <= c && c <= '9'
}

/// The lowercase letters in alphabetical order.
pub open spec fn lowercase_letters() -> Seq<char> {
    Seq::new(26, |i: int| (97 + i) as char)
}

/// The uppercase letters in alphabetical order.
pub open spec fn uppercase_letters() -> Seq<char> {
    Seq::new(26, |i: int| (65 + i) as char)
}

/// The decimal digits in ascending order.
pub open spec fn digit_chars() -> Seq<char> {
    Seq::new(10, |i: int| (48 + i) as char)
}

/// Whether `c` belongs to one of the classes that `cli` selects.
pub open spec fn selected(cli: CliOptions, c: char) -> bool {
    (cli.lowercase && is_lowercase(c)) || (cli.uppercase && is_uppercase(c)) || (cli.numbers
        && is_digit(c))
}

/// The alphabet of a configuration: the uppercase letters, then the digits,
/// then the lowercase letters, each where its class is selected.
pub open spec fn class_alphabet(cli: CliOptions) -> Seq<char> {
    (if cli.uppercase {
        uppercase_letters()
    } else {
        Seq::empty()
    }) + (if cli.numbers {
        digit_chars()
    } else {
        Seq::empty()
    }) + (if cli.lowercase {
        lowercase_letters()
    } else {
        Seq::empty()
    })
}

/// The password that a sequence of draws gives: one character per draw, the
/// draw taken modulo the alphabet's size as an index into it.
pub open spec fn spec_password(alphabet: Seq<char>, draws: Seq<u32>) -> Seq<char> {
    Seq::new(draws.len(), |j: int| alphabet[(draws[j] as int) % (alphabet.len() as int)])
}

/// Whether `s` is the password that some `length` draws give over `alphabet`.
pub open spec fn drawn_from(s: Seq<char>, alphabet: Seq<char>, length: nat) -> bool {
    exists|d: Seq<u32>| d.len() == length && s == spec_password(alphabet, d)
}

/// Every character of a password drawn from a non-empty alphabet is in it.
pub proof fn lemma_password_in_alphabet(alphabet: Seq<char>, draws: Seq<u32>)
    requires
        alphabet.len() > 0,
    ensures
        spec_password(alphabet, draws).len() == draws.len(),
        forall|j: int|
            0 <= j < draws.len() ==> alphabet.contains(#[trigger] spec_password(alphabet, draws)[j]),
{
    assert forall|j: int| 0 <= j < draws.len() implies alphabet.contains(
        #[trigger] spec_password(alphabet, draws)[j],
    ) by {
        let k = (draws[j] as int) % (alphabet.len() as int);
        assert(alphabet[k] == spec_password(alphabet, draws)[j]);
    }
}

/// A character is in a configuration's alphabet exactly when it belongs to
/// one of the selected classes: no character of an unselected class is ever
/// in it, and every character of a selected class is.
pub proof fn lemma_alphabet_members(cli: CliOptions)
    ensures
        forall|c: char| #[trigger] class_alphabet(cli).contains(c) <==> selected(cli, c),
{
    let u = if cli.uppercase {
        uppercase_letters()
    } else {
        Seq::<char>::empty()
    };
    let d = if cli.numbers {
        digit_chars()
    } else {
        Seq::<char>::empty()
    };
    let l = if cli.lowercase {
        lowercase_letters()
    } else {
        Seq::<char>::empty()
    };
    let a = class_alphabet(cli);
    assert(a == u + d + l);
    assert forall|c: char| a.contains(c) implies selected(cli, c) by {
        let k = choose|k: int| 0 <= k < a.len() && a[k] == c;
        if k < u.len() {
            assert(a[k] == u[k]);
        } else if k < u.len() + d.len() {
            assert(a[k] == d[k - u.len()]);
        } else {
            assert(a[k] == l[k - u.len() - d.len()]);
        }
    }
    assert forall|c: char| selected(cli, c) implies a.contains(c) by {
        if cli.uppercase && is_uppercase(c) {
            let k = (c as u32 - 65) as int;
            assert(a[k] == c);
        } else if cli.numbers && is_digit(c) {
            let k = (c as u32 - 48) as int;
            assert(a[u.len() + k] == c);
        } else {
            let k = (c as u32 - 97) as int;
            assert(a[u.len() + d.len() + k] == c);
        }
    }
}

/// Builds the alphabet of a configuration.
pub fn build_alphabet(cli: &CliOptions) -> (r: String)
    ensures
        r@ == class_alphabet(*cli),
{
    proof {
        reveal_strlit("ABCDEFGHIJKLMNOPQRSTUVWXYZ");
        reveal_strlit("0123456789");
        reveal_strlit("abcdefghijklmnopqrstuvwxyz");
        assert("ABCDEFGHIJKLMNOPQRSTUVWXYZ"@ =~= uppercase_letters());
        assert("0123456789"@ =~= digit_chars());
        assert("abcdefghijklmnopqrstuvwxyz"@ =~= lowercase_letters());
    }
    let mut set = String::new();
    if cli.uppercase {
        set.append("ABCDEFGHIJKLMNOPQRSTUVWXYZ");
    }
    if cli.numbers {
        set.append("0123456789");
    }
    if cli.lowercase {
        set.append("abcdefghijklmnopqrstuvwxyz");
    }
    assert(set@ =~= class_alphabet(*cli));
    set
}

/// The password that `draws` give over `alphabet`.
pub fn password_from_draws(alphabet: &str, draws: &Vec<u32>) -> (r: String)
    requires
        alphabet@.len() > 0,
    ensures
        r@ == spec_password(alphabet@, draws@),
{
    let n = alphabet.unicode_len();
    let mut pass = String::new();
    let mut j: usize = 0;
    while j < draws.len()
        invariant
            j <= draws.len(),
            n == alphabet@.len(),
            n > 0,
            pass@ =~= spec_password(alphabet@, draws@.subrange(0, j as int)),
        decreases draws.len() - j,
    {
        let k = (draws[j] as usize) % n;
        let ch = alphabet.substring_char(k, k + 1);
        assert(ch@ =~= seq![alphabet@[k as int]]);
        pass.append(ch);
        j = j + 1;
        assert(pass@ =~= spec_password(alphabet@, draws@.subrange(0, j as int)));
    }
    assert(draws@.subrange(0, j as int) =~= draws@);
    pass
}

/// Draws `length` numbers from `rng` and makes one password of them over
/// `alphabet`.
pub fn generate_password<R: RandomSource>(alphabet: &str, length: u8, rng: &mut R) -> (r: String)
    requires
        alphabet@.len() > 0,
    ensures
        drawn_from(r@, alphabet@, length as nat),
{
    let mut draws: Vec<u32> = Vec::new();
    let mut j: u8 = 0;
    while j < length
        invariant
            j <= length,
            draws@.len() == j,
        decreases length - j,
    {
        draws.push(rng.next_u32());
        j = j + 1;
    }
    let r = password_from_draws(alphabet, &draws);
    assert(draws@.len() == length && r@ == spec_password(alphabet@, draws@));
    r
}

/// Generates the passwords of one run: `cli.count` of them, each of
/// `cli.length` characters, each character drawn from the configuration's
/// alphabet by a number of `rng` taken modulo the alphabet's size.
pub fn generate<R: RandomSource>(cli: &CliOptions, rng: &mut R) -> (r: Vec<String>)
    requires
        cli.valid(),
    ensures
        r.len() == cli.count,
        forall|i: int|
            0 <= i < r.len() ==> drawn_from(#[trigger] r[i]@, class_alphabet(*cli), cli.length as nat),
        forall|i: int| 0 <= i < r.len() ==> (#[trigger] r[i])@.len() == cli.length,
        forall|i: int, j: int|
            0 <= i < r.len() && 0 <= j < cli.length ==> selected(*cli, #[trigger] r[i]@[j]),
{
    let alphabet = build_alphabet(cli);
    proof {
        lemma_alphabet_members(*cli);
        let c = if cli.uppercase {
            'A'
        } else if cli.numbers {
            '0'
        } else {
            'a'
        };
        assert(selected(*cli, c));
    }
    let mut out: Vec<String> = Vec::new();
    let mut i: u8 = 0;
    while i < cli.count
        invariant
            i <= cli.count,
            alphabet@ == class_alphabet(*cli),
            alphabet@.len() > 0,
            out.len() == i,
            forall|k: int|
                0 <= k < out.len() ==> drawn_from(
                    #[trigger] out[k]@,
                    class_alphabet(*cli),
                    cli.length as nat,
                ),
        decreases cli.count - i,
    {
        let p = generate_password(alphabet.as_str(), cli.length, rng);
        out.push(p);
        i = i + 1;
    }
    assert forall|k: int, j: int| 0 <= k < out.len() && 0 <= j < cli.length implies selected(
        *cli,
        #[trigger] out[k]@[j],
    ) by {
        let d = choose|d: Seq<u32>|
            d.len() == cli.length && out[k]@ == spec_password(class_alphabet(*cli), d);
        lemma_password_in_alphabet(class_alphabet(*cli), d);
        lemma_alphabet_members(*cli);
        assert(class_alphabet(*cli).contains(out[k]@[j]));
    }
    assert forall|k: int| 0 <= k < out.len() implies (#[trigger] out[k])@.len() == cli.length by {
        let d = choose|d: Seq<u32>|
            d.len() == cli.length && out[k]@ == spec_password(class_alphabet(*cli), d);
    }
    out
}

} // verus!
