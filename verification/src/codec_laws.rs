//! What holds of the literals that the codec writes: an absent value is
//! `NULL` in every family, and the literal of an integer, of a truth value
//! and of a text says which value it came from.

use crate::codec::{
    bool_text, cell_literal, declared_literal, is_float_text, is_number_char, is_plain,
    json_compact_text, literal_of, null_text, string_literal, wrapped, CellRead, ColumnValue,
    FallbackReads, TypeCategory,
};
use crate::text::{decimal_digits, digit_char, doubled, int_text};
use vstd::prelude::*;

verus! {

// ---------------------------------------------------------------------------
// Reading literals back
// ---------------------------------------------------------------------------
/// The digit that a character stands for.
pub open spec fn digit_value(c: char) -> Option<int> {
    if c == '0' {
        Some(0)
    } else if c == '1' {
        Some(1)
    } else if c == '2' {
        Some(2)
    } else if c == '3' {
        Some(3)
    } else if c == '4' {
        Some(4)
    } else if c == '5' {
        Some(5)
    } else if c == '6' {
        Some(6)
    } else if c == '7' {
        Some(7)
    } else if c == '8' {
        Some(8)
    } else if c == '9' {
        Some(9)
    } else {
        None
    }
}

/// The number that a decimal numeral stands for.
pub open spec fn numeral_value(s: Seq<char>) -> Option<int>
    decreases s.len(),
{
    if s.len() == 0 {
        None
    } else if s.len() == 1 {
        digit_value(s[0])
    } else {
        match (numeral_value(s.drop_last()), digit_value(s.last())) {
            (Some(front), Some(d)) => Some(10 * front + d),
            _ => None,
        }
    }
}

/// The integer that a literal stands for.
pub open spec fn integer_of(literal: Seq<char>) -> Option<int> {
    if literal.len() > 0 && literal[0] == '-' {
        match numeral_value(literal.skip(1)) {
            Some(n) => Some(-n),
            None => None,
        }
    } else {
        numeral_value(literal)
    }
}

/// The truth value that a literal stands for.
pub open spec fn boolean_of(literal: Seq<char>) -> Option<bool> {
    if literal == "TRUE"@ {
        Some(true)
    } else if literal == "FALSE"@ {
        Some(false)
    } else {
        None
    }
}

/// The text that stands doubled in `s`: every pair of `q` read as one, and a
/// `q` without its pair refused.
pub open spec fn undoubled(s: Seq<char>, q: char) -> Option<Seq<char>>
    decreases s.len(),
{
    if s.len() == 0 {
        Some(Seq::empty())
    } else if s.last() != q {
        match undoubled(s.drop_last(), q) {
            Some(front) => Some(front.push(s.last())),
            None => None,
        }
    } else if s.len() >= 2 && s[s.len() - 2] == q {
        match undoubled(s.take(s.len() - 2), q) {
            Some(front) => Some(front.push(q)),
            None => None,
        }
    } else {
        None
    }
}

/// The text that a string literal stands for.
pub open spec fn text_of_literal(literal: Seq<char>) -> Option<Seq<char>> {
    if literal.len() >= 2 && literal[0] == '\'' && literal.last() == '\'' {
        undoubled(literal.subrange(1, literal.len() - 1), '\'')
    } else {
        None
    }
}

/// A literal that a value cannot break out of: it holds no single quote at
/// all, as numbers, truth values and `NULL` do, or it is one string literal
/// from its first quote to its last, every quote inside it doubled.
pub open spec fn is_sound_literal(literal: Seq<char>) -> bool {
    is_plain(literal) || text_of_literal(literal) is Some
}

// ---------------------------------------------------------------------------
// The laws
// ---------------------------------------------------------------------------
/// Every literal that the codec writes for a cell is sound: no value of any
/// family can close its literal early.
pub proof fn lemma_literals_are_sound(category: TypeCategory, cell: CellRead)
    ensures
        cell_literal(category, cell) matches Some(literal) ==> is_sound_literal(literal),
{
    lemma_words_are_plain();
    match declared_literal(category, cell.declared) {
        Some(literal) => {
            match cell.declared {
                Ok(Some(v)) => {
                    lemma_value_literal_is_sound(v);
                },
                _ => {},
            }
        },
        None => {
            match cell.fallback.integer {
                Some(v) => {
                    lemma_int_text_is_plain(v as int);
                },
                None => {
                    match cell.fallback.real {
                        Some(t) => {
                            lemma_float_text_is_plain(t@);
                        },
                        None => {},
                    }
                },
            }
        },
    }
}

/// The literal of a value, where it has one, is sound.
pub proof fn lemma_value_literal_is_sound(v: ColumnValue)
    ensures
        literal_of(v) matches Some(literal) ==> is_sound_literal(literal),
{
    lemma_words_are_plain();
    match v {
        ColumnValue::SmallInt(n) => {
            lemma_int_text_is_plain(n as int);
        },
        ColumnValue::Integer(n) => {
            lemma_int_text_is_plain(n as int);
        },
        ColumnValue::BigInt(n) => {
            lemma_int_text_is_plain(n as int);
        },
        ColumnValue::Numeric(_) => {},
        ColumnValue::Real(t) => {
            lemma_float_text_is_plain(t@);
        },
        ColumnValue::Double(t) => {
            lemma_float_text_is_plain(t@);
        },
        ColumnValue::Boolean(_) => {},
        ColumnValue::Json(document) => {
            match json_compact_text(document@) {
                Some(compact) => {
                    lemma_string_literal_round_trip(compact);
                },
                None => {},
            }
        },
        ColumnValue::Text(s) => {
            lemma_string_literal_round_trip(s@);
        },
        _ => {
            match literal_of(v) {
                Some(literal) => {
                    let inner = choose|t: Seq<char>| is_plain(t) && literal == wrapped(t);
                    lemma_wrapped_is_sound(inner);
                },
                None => {},
            }
        },
    }
}

proof fn lemma_words_are_plain()
    ensures
        is_plain(null_text()),
        is_plain(bool_text(true)),
        is_plain(bool_text(false)),
        is_plain("NaN"@),
        is_plain("inf"@),
        is_plain("-inf"@),
{
    reveal_strlit("NULL");
    reveal_strlit("TRUE");
    reveal_strlit("FALSE");
    reveal_strlit("NaN");
    reveal_strlit("inf");
    reveal_strlit("-inf");
    assert(!"NULL"@.contains('\'')) by {
        if "NULL"@.contains('\'') {
            let k = choose|k: int| 0 <= k < "NULL"@.len() && "NULL"@[k] == '\'';
            assert("NULL"@[0] != '\'' && "NULL"@[1] != '\'' && "NULL"@[2] != '\'' && "NULL"@[3]
                != '\'');
        }
    }
    assert(!"TRUE"@.contains('\'')) by {
        if "TRUE"@.contains('\'') {
            let k = choose|k: int| 0 <= k < "TRUE"@.len() && "TRUE"@[k] == '\'';
            assert("TRUE"@[0] != '\'' && "TRUE"@[1] != '\'' && "TRUE"@[2] != '\'' && "TRUE"@[3]
                != '\'');
        }
    }
    assert(!"FALSE"@.contains('\'')) by {
        if "FALSE"@.contains('\'') {
            let k = choose|k: int| 0 <= k < "FALSE"@.len() && "FALSE"@[k] == '\'';
            assert("FALSE"@[0] != '\'' && "FALSE"@[1] != '\'' && "FALSE"@[2] != '\''
                && "FALSE"@[3] != '\'' && "FALSE"@[4] != '\'');
        }
    }
    assert(!"NaN"@.contains('\'')) by {
        if "NaN"@.contains('\'') {
            let k = choose|k: int| 0 <= k < "NaN"@.len() && "NaN"@[k] == '\'';
            assert("NaN"@[0] != '\'' && "NaN"@[1] != '\'' && "NaN"@[2] != '\'');
        }
    }
    assert(!"inf"@.contains('\'')) by {
        if "inf"@.contains('\'') {
            let k = choose|k: int| 0 <= k < "inf"@.len() && "inf"@[k] == '\'';
            assert("inf"@[0] != '\'' && "inf"@[1] != '\'' && "inf"@[2] != '\'');
        }
    }
    assert(!"-inf"@.contains('\'')) by {
        if "-inf"@.contains('\'') {
            let k = choose|k: int| 0 <= k < "-inf"@.len() && "-inf"@[k] == '\'';
            assert("-inf"@[0] != '\'' && "-inf"@[1] != '\'' && "-inf"@[2] != '\'' && "-inf"@[3]
                != '\'');
        }
    }
}

proof fn lemma_float_text_is_plain(t: Seq<char>)
    ensures
        is_float_text(t) ==> is_plain(t),
{
    lemma_words_are_plain();
    if is_float_text(t) && t.contains('\'') {
        let k = choose|k: int| 0 <= k < t.len() && t[k] == '\'';
        assert(!is_number_char(t[k]));
    }
}

proof fn lemma_digits_are_plain(n: nat)
    ensures
        is_plain(decimal_digits(n)),
    decreases n,
{
    let digits = decimal_digits(n);
    if n >= 10 {
        lemma_digits_are_plain(n / 10);
        let front = decimal_digits(n / 10);
        if digits.contains('\'') {
            let k = choose|k: int| 0 <= k < digits.len() && digits[k] == '\'';
            if k < front.len() {
                assert(front[k] == '\'');
                assert(front.contains('\''));
            }
        }
    } else {
        if digits.contains('\'') {
            let k = choose|k: int| 0 <= k < digits.len() && digits[k] == '\'';
        }
    }
}

proof fn lemma_int_text_is_plain(v: int)
    ensures
        is_plain(int_text(v)),
{
    let text = int_text(v);
    if v < 0 {
        lemma_digits_are_plain((-v) as nat);
        let digits = decimal_digits((-v) as nat);
        if text.contains('\'') {
            let k = choose|k: int| 0 <= k < text.len() && text[k] == '\'';
            if k > 0 {
                assert(digits[k - 1] == '\'');
                assert(digits.contains('\''));
            }
        }
    } else {
        lemma_digits_are_plain(v as nat);
    }
}

proof fn lemma_plain_reads_as_itself(t: Seq<char>)
    requires
        is_plain(t),
    ensures
        undoubled(t, '\'') == Some(t),
    decreases t.len(),
{
    if t.len() > 0 {
        let front = t.drop_last();
        assert(t[t.len() - 1] != '\'') by {
            if t[t.len() - 1] == '\'' {
                assert(t.contains('\''));
            }
        }
        assert(is_plain(front)) by {
            if front.contains('\'') {
                let k = choose|k: int| 0 <= k < front.len() && front[k] == '\'';
                assert(t[k] == '\'');
                assert(t.contains('\''));
            }
        }
        lemma_plain_reads_as_itself(front);
        assert(front.push(t.last()) == t);
    } else {
        assert(t == Seq::<char>::empty());
    }
}

/// A plain text between single quotes is one string literal.
proof fn lemma_wrapped_is_sound(t: Seq<char>)
    requires
        is_plain(t),
    ensures
        text_of_literal(wrapped(t)) == Some(t),
{
    reveal_strlit("'");
    let literal = wrapped(t);
    assert("'"@.len() == 1);
    assert("'"@[0] == '\'');
    assert(literal.len() == t.len() + 2);
    assert(literal[0] == '\'');
    assert(literal.last() == '\'');
    assert(literal.subrange(1, literal.len() - 1) == t);
    lemma_plain_reads_as_itself(t);
}

/// A cell that holds no value has the literal `NULL`, whatever the family
/// of its column.
pub proof fn lemma_null_is_null(category: TypeCategory, fallback: FallbackReads)
    ensures
        cell_literal(category, CellRead { declared: Ok(None), fallback }) == Some(null_text()),
{
}

/// The literal of an integer of any width stands for that integer.
pub proof fn lemma_integer_round_trip(v: ColumnValue)
    requires
        v is SmallInt || v is Integer || v is BigInt,
    ensures
        literal_of(v) matches Some(literal) && integer_of(literal) == Some(
            match v {
                ColumnValue::SmallInt(n) => n as int,
                ColumnValue::Integer(n) => n as int,
                ColumnValue::BigInt(n) => n as int,
                _ => 0int,
            },
        ),
{
    let n = match v {
        ColumnValue::SmallInt(n) => n as int,
        ColumnValue::Integer(n) => n as int,
        ColumnValue::BigInt(n) => n as int,
        _ => 0int,
    };
    lemma_int_text_round_trip(n);
}

/// The literal of a truth value stands for that truth value.
pub proof fn lemma_boolean_round_trip(b: bool)
    ensures
        literal_of(ColumnValue::Boolean(b)) matches Some(literal) && boolean_of(literal) == Some(
            b,
        ),
{
    reveal_strlit("TRUE");
    reveal_strlit("FALSE");
    assert("TRUE"@.len() != "FALSE"@.len());
}

/// The literal of a text stands for that text.
pub proof fn lemma_text_round_trip(s: String)
    ensures
        literal_of(ColumnValue::Text(s)) matches Some(literal) && text_of_literal(literal)
            == Some(s@),
{
    lemma_string_literal_round_trip(s@);
}

/// The literal of a JSON document stands for the compact text of that
/// document.
pub proof fn lemma_json_round_trip(document: String)
    ensures
        match json_compact_text(document@) {
            Some(compact) => literal_of(ColumnValue::Json(document)) matches Some(literal)
                && text_of_literal(literal) == Some(compact),
            None => literal_of(ColumnValue::Json(document)) is None,
        },
{
    match json_compact_text(document@) {
        Some(compact) => {
            lemma_string_literal_round_trip(compact);
        },
        None => {},
    }
}

/// The decimal numeral of an integer stands for that integer.
pub proof fn lemma_int_text_round_trip(v: int)
    ensures
        integer_of(int_text(v)) == Some(v),
{
    if v < 0 {
        let digits = decimal_digits((-v) as nat);
        lemma_numeral_round_trip((-v) as nat);
        assert(int_text(v).skip(1) == digits);
        assert(int_text(v)[0] == '-');
    } else {
        lemma_numeral_round_trip(v as nat);
        assert(decimal_digits(v as nat)[0] != '-');
    }
}

/// A text between quotes, its quotes doubled, stands for that text.
pub proof fn lemma_string_literal_round_trip(s: Seq<char>)
    ensures
        text_of_literal(string_literal(s)) == Some(s),
{
    let literal = string_literal(s);
    let inner = doubled(s, '\'');
    assert(literal == seq!['\''] + inner + seq!['\'']);
    assert(literal.subrange(1, literal.len() - 1) == inner);
    lemma_undoubled(s, '\'');
}

proof fn lemma_numeral_round_trip(n: nat)
    ensures
        decimal_digits(n).len() >= 1,
        numeral_value(decimal_digits(n)) == Some(n as int),
        digit_value(decimal_digits(n)[0]) is Some,
    decreases n,
{
    if n >= 10 {
        lemma_numeral_round_trip(n / 10);
        let front = decimal_digits(n / 10);
        let all = decimal_digits(n);
        assert(all == front.push(digit_char((n % 10) as int)));
        assert(all.drop_last() == front);
        assert(all[0] == front[0]);
    }
}

proof fn lemma_undoubled(s: Seq<char>, q: char)
    ensures
        undoubled(doubled(s, q), q) == Some(s),
    decreases s.len(),
{
    if s.len() > 0 {
        let front = s.drop_last();
        lemma_undoubled(front, q);
        let d = doubled(s, q);
        if s.last() == q {
            assert(d == doubled(front, q).push(q).push(q));
            assert(d.take(d.len() - 2) == doubled(front, q));
            assert(front.push(q) == s);
        } else {
            assert(d.drop_last() == doubled(front, q));
            assert(front.push(s.last()) == s);
        }
    } else {
        assert(s == Seq::<char>::empty());
    }
}

} // verus!
