//! Index lists as text: their entries in decimal between brackets,
//! separated by a comma and a blank, as in `[0, 12, 7]`.

use vstd::prelude::*;

verus! {

/// The character for the digit `d`.
pub open spec fn digit(d: int) -> char {
    if d == 0 {
        '0'
    } else if d == 1 {
        '1'
    } else if d == 2 {
        '2'
    } else if d == 3 {
        '3'
    } else if d == 4 {
        '4'
    } else if d == 5 {
        '5'
    } else if d == 6 {
        '6'
    } else if d == 7 {
        '7'
    } else if d == 8 {
        '8'
    } else {
        '9'
    }
}

/// The number `n` in decimal, without leading zeros.
pub open spec fn decimal(n: nat) -> Seq<char>
    decreases n,
{
    if n < 10 {
        seq![digit(n as int)]
    } else {
        decimal(n / 10).push(digit((n % 10) as int))
    }
}

/// The pieces, one after the other, with a comma and a blank between each
/// two.
pub open spec fn listed(pieces: Seq<Seq<char>>) -> Seq<char>
    decreases pieces.len(),
{
    if pieces.len() == 0 {
        Seq::empty()
    } else if pieces.len() == 1 {
        pieces[0]
    } else {
        listed(pieces.drop_last()) + seq![',', ' '] + pieces.last()
    }
}

/// The pieces as a list between brackets.
pub open spec fn bracketed(pieces: Seq<Seq<char>>) -> Seq<char> {
    seq!['['] + listed(pieces) + seq![']']
}

/// The text of a list of indices.
pub open spec fn indices_text(indices: Seq<u64>) -> Seq<char> {
    bracketed(Seq::new(indices.len(), |i: int| decimal(indices[i] as nat)))
}

/// The text of a list of lists of indices.
pub open spec fn paths_text(paths: Seq<Seq<u64>>) -> Seq<char> {
    bracketed(Seq::new(paths.len(), |i: int| indices_text(paths[i])))
}

/// A list of one piece more reads as the list before, a separator if there
/// was a piece before, and the new piece.
pub proof fn lemma_listed_push(pieces: Seq<Seq<char>>, piece: Seq<char>)
    ensures
        listed(pieces.push(piece)) == (if pieces.len() == 0 {
            piece
        } else {
            listed(pieces) + seq![',', ' '] + piece
        }),
{
    let longer = pieces.push(piece);
    assert(longer.drop_last() == pieces);
    assert(longer.last() == piece);
}

fn digit_str(d: u8) -> (s: &'static str)
    requires
        d < 10,
    ensures
        s@ == seq![digit(d as int)],
{
    proof {
        reveal_strlit("0");
        reveal_strlit("1");
        reveal_strlit("2");
        reveal_strlit("3");
        reveal_strlit("4");
        reveal_strlit("5");
        reveal_strlit("6");
        reveal_strlit("7");
        reveal_strlit("8");
        reveal_strlit("9");
    }
    let s = if d == 0 {
        "0"
    } else if d == 1 {
        "1"
    } else if d == 2 {
        "2"
    } else if d == 3 {
        "3"
    } else if d == 4 {
        "4"
    } else if d == 5 {
        "5"
    } else if d == 6 {
        "6"
    } else if d == 7 {
        "7"
    } else if d == 8 {
        "8"
    } else {
        "9"
    };
    assert(s@ =~= seq![digit(d as int)]);
    s
}

/// Appends `n` in decimal.
pub fn append_decimal(text: &mut String, n: u64)
    ensures
        final(text)@ == old(text)@ + decimal(n as nat),
    decreases n,
{
    if n >= 10 {
        append_decimal(text, n / 10);
    }
    let ghost before = text@;
    text.append(digit_str((n % 10) as u8));
    assert(text@ == old(text)@ + decimal(n as nat)) by {
        if n >= 10 {
            assert(before + seq![digit((n % 10) as int)] == old(text)@ + decimal(
                (n / 10) as nat,
            ).push(digit((n % 10) as int)));
        }
    }
}

// Appends what opens a list.
pub(crate) fn append_open(text: &mut String)
    ensures
        final(text)@ == old(text)@ + seq!['['],
{
    proof {
        reveal_strlit("[");
    }
    text.append("[");
    assert("["@ =~= seq!['[']);
}

// Appends what closes a list.
pub(crate) fn append_close(text: &mut String)
    ensures
        final(text)@ == old(text)@ + seq![']'],
{
    proof {
        reveal_strlit("]");
    }
    text.append("]");
    assert("]"@ =~= seq![']']);
}

// Appends what separates two entries of a list.
pub(crate) fn append_separator(text: &mut String)
    ensures
        final(text)@ == old(text)@ + seq![',', ' '],
{
    proof {
        reveal_strlit(", ");
    }
    text.append(", ");
    assert(", "@ =~= seq![',', ' ']);
}

} // verus!
