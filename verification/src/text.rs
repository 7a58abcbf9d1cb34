//! Text that the tools write: decimal numbers, event labels and the
//! lines of a flamegraph.

use vstd::prelude::*;
use vstd::string::StringExecFns;

verus! {

/// The character of a decimal digit.
pub open spec fn digit_char(d: int) -> char
    recommends
        0 <= d <= 9,
{
    if d == 0 {
        '0'
    } else if d == 1 {
        '1'
    } else if d == 2 {
        '2'
    } else if d == 3 {
        '3'
    } else if d == 4 {
        '4'
    } else if d == 5 {
        '5'
    } else if d == 6 {
        '6'
    } else if d == 7 {
        '7'
    } else if d == 8 {
        '8'
    } else {
        '9'
    }
}

/// The decimal digits of a number, without leading zeros; "0" for zero.
pub open spec fn decimal(n: nat) -> Seq<char>
    decreases n,
{
    if n < 10 {
        seq![digit_char(n as int)]
    } else {
        decimal(n / 10).push(digit_char((n % 10) as int))
    }
}

/// The text of one decimal digit.
fn digit_str(d: u64) -> (s: &'static str)
    requires
        d <= 9,
    ensures
        s@ == seq![digit_char(d as int)],
{
    proof {
        reveal_strlit("0");
        reveal_strlit("1");
        reveal_strlit("2");
        reveal_strlit("3");
        reveal_strlit("4");
        reveal_strlit("5");
        reveal_strlit("6");
        reveal_strlit("7");
        reveal_strlit("8");
        reveal_strlit("9");
    }
    let s = if d == 0 {
        "0"
    } else if d == 1 {
        "1"
    } else if d == 2 {
        "2"
    } else if d == 3 {
        "3"
    } else if d == 4 {
        "4"
    } else if d == 5 {
        "5"
    } else if d == 6 {
        "6"
    } else if d == 7 {
        "7"
    } else if d == 8 {
        "8"
    } else {
        "9"
    };
    assert(s@ =~= seq![digit_char(d as int)]);
    s
}

/// Appends the decimal digits of `n`.
pub fn push_decimal(out: &mut String, n: u64)
    ensures
        final(out)@ == old(out)@ + decimal(n as nat),
    decreases n,
{
    if n >= 10 {
        push_decimal(out, n / 10);
    }
    out.append(digit_str(n % 10));
    assert(out@ =~= old(out)@ + decimal(n as nat));
}

/// The label of an event in a plot: the letter `e` and the event's id.
pub open spec fn event_label_spec(id: nat) -> Seq<char> {
    seq!['e'] + decimal(id)
}

/// The label of an event in a plot.
pub fn event_label(id: usize) -> (label: String)
    ensures
        label@ == event_label_spec(id as nat),
{
    proof {
        reveal_strlit("e");
    }
    let mut label = String::from_str("e");
    push_decimal(&mut label, id as u64);
    assert(label@ =~= event_label_spec(id as nat));
    label
}

/// The first `upto` names in a row, with a `;` before each name that
/// does not start the text.
pub open spec fn joined(names: Seq<Seq<char>>, upto: int) -> Seq<char>
    decreases upto,
{
    if upto <= 0 {
        Seq::empty()
    } else {
        let before = joined(names, upto - 1);
        if before.len() > 0 {
            before + seq![';'] + names[upto - 1]
        } else {
            names[upto - 1]
        }
    }
}

/// One line of a flamegraph: the frames of a stack, outermost first and
/// separated by `;`, a blank, the size, and a line feed.
pub open spec fn flamegraph_line_spec(names: Seq<Seq<char>>, size: u64) -> Seq<char> {
    joined(names, names.len() as int) + seq![' '] + decimal(size as nat) + seq!['\n']
}

/// What a list of names holds.
pub open spec fn names_view(names: Seq<String>) -> Seq<Seq<char>> {
    Seq::new(names.len(), |i: int| names[i]@)
}

/// One line of a flamegraph for a stack with the given frame names and
/// an allocation of the given size.
pub fn flamegraph_line(names: &Vec<String>, size: u64) -> (line: String)
    ensures
        line@ == flamegraph_line_spec(names_view(names@), size),
{
    proof {
        reveal_strlit(";");
        reveal_strlit(" ");
        reveal_strlit("\n");
    }
    let ghost view = names_view(names@);
    let mut line = String::new();
    let mut empty: bool = true;
    let mut i: usize = 0;
    assert(line@ =~= joined(view, 0));
    while i < names.len()
        invariant
            i <= names@.len(),
            view == names_view(names@),
            line@ == joined(view, i as int),
            empty == (line@.len() == 0),
            ";"@ == seq![';'],
        decreases names@.len() - i,
    {
        let name: &str = names[i].as_str();
        assert(name@ == view[i as int]);
        if !empty {
            line.append(";");
        }
        line.append(name);
        if !name.is_empty() {
            empty = false;
        }
        assert(line@ =~= joined(view, i + 1));
        i = i + 1;
    }
    line.append(" ");
    push_decimal(&mut line, size);
    line.append("\n");
    assert(line@ =~= flamegraph_line_spec(view, size));
    line
}

/// Whether every byte is an ASCII digit.
pub open spec fn all_digits(s: Seq<u8>) -> bool {
    forall|i: int| 0 <= i < s.len() ==> 0x30 <= #[trigger] s[i] <= 0x39
}

/// The number that a row of ASCII digits stands for.
pub open spec fn digits_value(s: Seq<u8>) -> nat
    decreases s.len(),
{
    if s.len() == 0 {
        0
    } else {
        digits_value(s.drop_last()) * 10 + (s.last() - 0x30) as nat
    }
}

/// The index that a piece of text stands for: an optional `+`, then one
/// or more decimal digits, the number being one that fits. `None` for
/// any other text.
pub open spec fn index_spec(s: Seq<u8>) -> Option<usize> {
    if s.len() > 0 && s[0] == 0x2b {
        digits_index(s.drop_first())
    } else {
        digits_index(s)
    }
}

/// The index that a row of digits stands for: `None` when the row is
/// empty, holds another byte, or stands for a number that does not fit.
pub open spec fn digits_index(digits: Seq<u8>) -> Option<usize> {
    if digits.len() > 0 && all_digits(digits) && digits_value(digits) <= usize::MAX {
        Some(digits_value(digits) as usize)
    } else {
        None
    }
}

/// The first place at or after `from` that holds a comma, or the length
/// of the text when there is none.
pub open spec fn field_end(s: Seq<u8>, from: int) -> int
    decreases s.len() - from,
{
    if from >= s.len() || s[from] == 0x2c {
        from
    } else {
        field_end(s, from + 1)
    }
}

/// The indices that the text from `from` on stands for: fields parted by
/// commas, each an index. `None` when any field is no index; a text
/// without a comma is one field, also when it is empty.
pub open spec fn select_spec(s: Seq<u8>, from: int) -> Option<Seq<usize>>
    decreases s.len() - from,
{
    let end = field_end(s, from);
    if from < 0 || end < from || end > s.len() {
        None
    } else {
        match index_spec(s.subrange(from, end)) {
            None => None,
            Some(index) => if end >= s.len() {
                Some(seq![index])
            } else {
                match select_spec(s, end + 1) {
                    None => None,
                    Some(rest) => Some(seq![index] + rest),
                }
            },
        }
    }
}

/// The field that starts at `from` ends at `end` when no comma lies
/// between and `end` holds one or ends the text.
proof fn lemma_field_end(s: Seq<u8>, from: int, end: int)
    requires
        0 <= from <= end <= s.len(),
        forall|k: int| from <= k < end ==> s[k] != 0x2c,
        end < s.len() ==> s[end] == 0x2c,
    ensures
        field_end(s, from) == end,
    decreases end - from,
{
    if from < end {
        lemma_field_end(s, from + 1, end);
    }
}

/// More digits never stand for a smaller number.
proof fn lemma_digits_value_grows(s: Seq<u8>, upto: int)
    requires
        0 <= upto <= s.len(),
    ensures
        digits_value(s.subrange(0, upto)) <= digits_value(s),
    decreases s.len() - upto,
{
    if upto < s.len() {
        lemma_digits_value_grows(s, upto + 1);
        let longer = s.subrange(0, upto + 1);
        assert(longer.drop_last() =~= s.subrange(0, upto));
    } else {
        assert(s.subrange(0, upto) =~= s);
    }
}

/// Reads the index that the bytes from `from` up to `end` stand for.
fn parse_index(text: &[u8], from: usize, end: usize) -> (r: Option<usize>)
    requires
        from <= end <= text@.len(),
    ensures
        r == index_spec(text@.subrange(from as int, end as int)),
{
    let ghost field = text@.subrange(from as int, end as int);
    let start: usize = if from < end && text[from] == 0x2b {
        from + 1
    } else {
        from
    };
    let ghost digits = text@.subrange(start as int, end as int);
    proof {
        if start == from + 1 {
            assert(field[0] == 0x2b);
            assert(field.drop_first() =~= digits);
        } else {
            if field.len() > 0 {
                assert(field[0] == text@[from as int]);
            }
            assert(field =~= digits);
        }
    }
    assert(index_spec(field) == digits_index(digits));
    if start == end {
        return None;
    }
    let mut value: usize = 0;
    let mut i: usize = start;
    assert(digits.subrange(0, 0) =~= Seq::<u8>::empty());
    while i < end
        invariant
            start <= i <= end <= text@.len(),
            start < end,
            digits == text@.subrange(start as int, end as int),
            field == text@.subrange(from as int, end as int),
            index_spec(field) == digits_index(digits),
            all_digits(digits.subrange(0, i - start)),
            value == digits_value(digits.subrange(0, i - start)),
        decreases end - i,
    {
        let byte = text[i];
        assert(digits[i - start] == byte);
        if byte < 0x30 || byte > 0x39 {
            return None;
        }
        let digit: usize = (byte - 0x30) as usize;
        let ghost next = digits.subrange(0, i - start + 1);
        proof {
            assert(next.drop_last() =~= digits.subrange(0, i - start));
            assert(next.last() == byte);
            assert(digits_value(next) == value * 10 + digit);
            assert forall|k: int| 0 <= k < next.len() implies 0x30 <= #[trigger] next[k]
                <= 0x39 by {
                if k < next.len() - 1 {
                    assert(digits.subrange(0, i - start)[k] == next[k]);
                }
            }
        }
        if value > (usize::MAX - digit) / 10 {
            proof {
                lemma_digits_value_grows(digits, i - start + 1);
            }
            return None;
        }
        value = value * 10 + digit;
        i = i + 1;
    }
    assert(digits.subrange(0, end - start) =~= digits);
    Some(value)
}

/// Reads a list of indices parted by commas, such as `0,2,5`. `None`
/// when a field is no index.
pub fn parse_select(text: &[u8]) -> (r: Option<Vec<usize>>)
    ensures
        match r {
            Some(list) => select_spec(text@, 0) == Some(list@),
            None => select_spec(text@, 0).is_none(),
        },
{
    let mut list: Vec<usize> = Vec::new();
    let mut from: usize = 0;
    let len = text.len();
    loop
        invariant
            from <= len,
            len == text@.len(),
            select_spec(text@, 0) == (match select_spec(text@, from as int) {
                Some(rest) => Some(list@ + rest),
                None => None,
            }),
        decreases len - from,
    {
        let mut end: usize = from;
        while end < len && text[end] != 0x2c
            invariant
                from <= end <= len,
                len == text@.len(),
                forall|k: int| from <= k < end ==> text@[k] != 0x2c,
            decreases len - end,
        {
            end = end + 1;
        }
        proof {
            lemma_field_end(text@, from as int, end as int);
        }
        let index = match parse_index(text, from, end) {
            Some(index) => index,
            None => {
                return None;
            },
        };
        let ghost before = list@;
        list.push(index);
        if end >= len {
            proof {
                assert(before + seq![index] =~= list@);
            }
            return Some(list);
        }
        proof {
            match select_spec(text@, end + 1) {
                Some(rest) => {
                    assert(before + (seq![index] + rest) =~= list@ + rest);
                },
                None => {},
            }
        }
        from = end + 1;
    }
}

} // verus!
