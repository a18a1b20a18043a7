//! Text forms of a map: the layouts, stated over the texts of its keys and
//! values, and the decimal count in the header.

use vstd::prelude::*;
use vstd::string::StringExecFns;

verus! {

/// The character of a decimal digit.
pub open spec fn digit_char(d: nat) -> char {
    if d == 0 {
        '0'
    } else if d == 1 {
        '1'
    } else if d == 2 {
        '2'
    } else if d == 3 {
        '3'
    } else if d == 4 {
        '4'
    } else if d == 5 {
        '5'
    } else if d == 6 {
        '6'
    } else if d == 7 {
        '7'
    } else if d == 8 {
        '8'
    } else {
        '9'
    }
}

/// `n` written in decimal, without leading zeros.
pub open spec fn decimal(n: nat) -> Seq<char>
    decreases n,
{
    if n < 10 {
        seq![digit_char(n)]
    } else {
        decimal(n / 10).push(digit_char(n % 10))
    }
}

/// The texts of the entries, as character sequences.
pub open spec fn texts_view(texts: Seq<(String, String)>) -> Seq<(Seq<char>, Seq<char>)> {
    texts.map_values(|t: (String, String)| (t.0@, t.1@))
}

/// One line `"\n<key>: <value>"` for each entry.
pub open spec fn display_lines(texts: Seq<(Seq<char>, Seq<char>)>) -> Seq<char>
    decreases texts.len(),
{
    if texts.len() == 0 {
        Seq::empty()
    } else {
        display_lines(texts.drop_last()) + seq!['\n'] + texts.last().0 + seq![':', ' ']
            + texts.last().1
    }
}

/// The human-readable form: a header with the entry count, then one line
/// per entry.
pub open spec fn display_text(texts: Seq<(Seq<char>, Seq<char>)>) -> Seq<char> {
    seq!['S', 'e', 'q', 'M', 'a', 'p', '('] + decimal(texts.len()) + seq![')'] + display_lines(
        texts,
    )
}

/// The entries as `"<key>: <value>"`, separated by `", "`.
pub open spec fn debug_items(texts: Seq<(Seq<char>, Seq<char>)>) -> Seq<char>
    decreases texts.len(),
{
    if texts.len() == 0 {
        Seq::empty()
    } else if texts.len() == 1 {
        texts[0].0 + seq![':', ' '] + texts[0].1
    } else {
        debug_items(texts.drop_last()) + seq![',', ' '] + texts.last().0 + seq![':', ' ']
            + texts.last().1
    }
}

/// The compact debugging form: the entries in one parenthesised list.
pub open spec fn debug_text(texts: Seq<(Seq<char>, Seq<char>)>) -> Seq<char> {
    seq!['S', 'e', 'q', 'M', 'a', 'p', '('] + debug_items(texts) + seq![')']
}

fn digit_str(d: usize) -> (r: &'static str)
    requires
        d < 10,
    ensures
        r@ == seq![digit_char(d as nat)],
{
    proof {
        reveal_strlit("0");
        reveal_strlit("1");
        reveal_strlit("2");
        reveal_strlit("3");
        reveal_strlit("4");
        reveal_strlit("5");
        reveal_strlit("6");
        reveal_strlit("7");
        reveal_strlit("8");
        reveal_strlit("9");
    }
    if d == 0 {
        "0"
    } else if d == 1 {
        "1"
    } else if d == 2 {
        "2"
    } else if d == 3 {
        "3"
    } else if d == 4 {
        "4"
    } else if d == 5 {
        "5"
    } else if d == 6 {
        "6"
    } else if d == 7 {
        "7"
    } else if d == 8 {
        "8"
    } else {
        "9"
    }
}

/// Writes `n` in decimal.
pub fn decimal_string(n: usize) -> (r: String)
    ensures
        r@ == decimal(n as nat),
    decreases n,
{
    if n < 10 {
        String::from_str(digit_str(n))
    } else {
        let mut r = decimal_string(n / 10);
        r.append(digit_str(n % 10));
        r
    }
}

/// Lays out the human-readable form of a map from the texts of its keys and
/// values, in order.
pub fn render_display(texts: &Vec<(String, String)>) -> (r: String)
    ensures
        r@ == display_text(texts_view(texts@)),
{
    proof {
        reveal_strlit("SeqMap(");
        reveal_strlit(")");
    }
    let mut lines = String::new();
    for i in 0..texts.len()
        invariant
            lines@ == display_lines(texts_view(texts@.take(i as int))),
    {
        let ghost tv = texts_view(texts@.take(i + 1));
        proof {
            reveal_strlit("\n");
            reveal_strlit(": ");
            assert(tv.drop_last() =~= texts_view(texts@.take(i as int)));
            assert(tv.last() == (texts@[i as int].0@, texts@[i as int].1@));
        }
        let ghost before = lines@;
        lines.append("\n");
        lines.append(texts[i].0.as_str());
        lines.append(": ");
        lines.append(texts[i].1.as_str());
        proof {
            assert(lines@ =~= before + seq!['\n'] + tv.last().0 + seq![':', ' '] + tv.last().1);
        }
    }
    proof {
        assert(texts@.take(texts@.len() as int) =~= texts@);
    }
    let mut r = String::from_str("SeqMap(");
    let count = decimal_string(texts.len());
    r.append(count.as_str());
    r.append(")");
    r.append(lines.as_str());
    proof {
        assert(r@ =~= display_text(texts_view(texts@)));
    }
    r
}

/// Lays out the debugging form of a map from the texts of its keys and
/// values, in order.
pub fn render_debug(texts: &Vec<(String, String)>) -> (r: String)
    ensures
        r@ == debug_text(texts_view(texts@)),
{
    proof {
        reveal_strlit("SeqMap(");
        reveal_strlit(")");
    }
    let mut items = String::new();
    for i in 0..texts.len()
        invariant
            items@ == debug_items(texts_view(texts@.take(i as int))),
    {
        let ghost tv = texts_view(texts@.take(i + 1));
        proof {
            reveal_strlit(", ");
            reveal_strlit(": ");
            assert(tv.drop_last() =~= texts_view(texts@.take(i as int)));
            assert(tv.last() == (texts@[i as int].0@, texts@[i as int].1@));
        }
        let ghost before = items@;
        if i > 0 {
            items.append(", ");
        }
        let ghost sep = items@;
        items.append(texts[i].0.as_str());
        items.append(": ");
        items.append(texts[i].1.as_str());
        proof {
            assert(items@ =~= sep + tv.last().0 + seq![':', ' '] + tv.last().1);
            if i == 0 {
                assert(tv[0] == tv.last());
                assert(items@ =~= debug_items(tv));
            } else {
                assert(sep =~= before + seq![',', ' ']);
                assert(items@ =~= debug_items(tv));
            }
        }
    }
    proof {
        assert(texts@.take(texts@.len() as int) =~= texts@);
    }
    let mut r = String::from_str("SeqMap(");
    r.append(items.as_str());
    r.append(")");
    proof {
        assert(r@ =~= debug_text(texts_view(texts@)));
    }
    r
}

} // verus!
