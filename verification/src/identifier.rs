//! The names of frames and of source files.
//!
//! A source with one frame lends the frame its own name. A source with
//! several frames names each after itself and the frame's index, written in
//! decimal after an underscore.

use vstd::prelude::*;
use vstd::string::*;

verus! {

/// The character for the digit `d`.
pub open spec fn digit(d: int) -> char {
    if d == 0 {
        '0'
    } else if d == 1 {
        '1'
    } else if d == 2 {
        '2'
    } else if d == 3 {
        '3'
    } else if d == 4 {
        '4'
    } else if d == 5 {
        '5'
    } else if d == 6 {
        '6'
    } else if d == 7 {
        '7'
    } else if d == 8 {
        '8'
    } else {
        '9'
    }
}

/// The number `n` written in decimal, without leading zeros.
pub open spec fn decimal(n: nat) -> Seq<char>
    decreases n,
{
    if n < 10 {
        seq![digit(n as int)]
    } else {
        decimal(n / 10).push(digit((n % 10) as int))
    }
}

/// The identifier of frame `index` of a source named `basename` that has
/// `count` frames.
pub open spec fn identifier_of(basename: Seq<char>, index: nat, count: nat) -> Seq<char> {
    if count == 1 {
        basename
    } else {
        basename + seq!['_'] + decimal(index)
    }
}

/// The name of the file that holds the source named `name`.
pub open spec fn file_name_of(name: Seq<char>) -> Seq<char> {
    name + ".aseprite"@
}

/// The text of one digit.
fn digit_text(d: u32) -> (text: &'static str)
    requires
        d < 10,
    ensures
        text@ == seq![digit(d as int)],
{
    proof {
        reveal_strlit("0");
        reveal_strlit("1");
        reveal_strlit("2");
        reveal_strlit("3");
        reveal_strlit("4");
        reveal_strlit("5");
        reveal_strlit("6");
        reveal_strlit("7");
        reveal_strlit("8");
        reveal_strlit("9");
    }
    let text = if d == 0 {
        "0"
    } else if d == 1 {
        "1"
    } else if d == 2 {
        "2"
    } else if d == 3 {
        "3"
    } else if d == 4 {
        "4"
    } else if d == 5 {
        "5"
    } else if d == 6 {
        "6"
    } else if d == 7 {
        "7"
    } else if d == 8 {
        "8"
    } else {
        "9"
    };
    assert(text@ =~= seq![digit(d as int)]);
    text
}

/// Writes `n` in decimal at the end of `text`.
pub fn push_decimal(text: &mut String, n: u32)
    ensures
        final(text)@ == old(text)@ + decimal(n as nat),
    decreases n,
{
    if n >= 10 {
        push_decimal(text, n / 10);
    }
    text.append(digit_text(n % 10));
    assert(text@ =~= old(text)@ + decimal(n as nat));
}

/// The identifier of frame `index` of a source named `basename` that has
/// `count` frames.
pub fn frame_identifier(basename: &str, index: u32, count: u32) -> (identifier: String)
    ensures
        identifier@ == identifier_of(basename@, index as nat, count as nat),
{
    let mut identifier = basename.to_owned();
    if count != 1 {
        proof {
            reveal_strlit("_");
        }
        identifier.append("_");
        assert(identifier@ =~= basename@ + seq!['_']);
        push_decimal(&mut identifier, index);
    }
    identifier
}

/// The name of the file that holds the source named `name`.
pub fn source_file_name(name: &str) -> (file_name: String)
    ensures
        file_name@ == file_name_of(name@),
{
    let mut file_name = name.to_owned();
    file_name.append(".aseprite");
    file_name
}

/// A number's decimal form has at least one digit, and more than one from
/// ten on.
pub proof fn lemma_decimal_length(n: nat)
    ensures
        decimal(n).len() >= 1,
        n >= 10 ==> decimal(n).len() >= 2,
    decreases n,
{
    if n >= 10 {
        lemma_decimal_length(n / 10);
    }
}

/// Different numbers are written differently.
pub proof fn lemma_decimal_injective(a: nat, b: nat)
    requires
        decimal(a) == decimal(b),
    ensures
        a == b,
    decreases a,
{
    lemma_decimal_length(a);
    lemma_decimal_length(b);
    if a < 10 && b < 10 {
        assert(decimal(a)[0] == digit(a as int));
        assert(decimal(b)[0] == digit(b as int));
    } else if a < 10 {
        assert(decimal(a).len() == 1);
    } else if b < 10 {
        assert(decimal(b).len() == 1);
    } else {
        let heads_a = decimal(a / 10);
        let heads_b = decimal(b / 10);
        assert(decimal(a).drop_last() =~= heads_a);
        assert(decimal(b).drop_last() =~= heads_b);
        assert(decimal(a).last() == digit((a % 10) as int));
        assert(decimal(b).last() == digit((b % 10) as int));
        lemma_decimal_injective(a / 10, b / 10);
    }
}

/// The frames of one source that has several are never named alike.
pub proof fn lemma_frames_named_apart(basename: Seq<char>, i: nat, j: nat, count: nat)
    requires
        count != 1,
        i != j,
    ensures
        identifier_of(basename, i, count) != identifier_of(basename, j, count),
{
    let head = basename + seq!['_'];
    if identifier_of(basename, i, count) == identifier_of(basename, j, count) {
        assert((head + decimal(i)).subrange(head.len() as int, (head + decimal(i)).len() as int)
            =~= decimal(i));
        assert((head + decimal(j)).subrange(head.len() as int, (head + decimal(j)).len() as int)
            =~= decimal(j));
        lemma_decimal_injective(i, j);
    }
}

} // verus!
