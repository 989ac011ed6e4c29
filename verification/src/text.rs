//! Titles and axis labels.

use crate::model::ValueType;
use vstd::prelude::*;
use vstd::string::StringExecFns;

verus! {

/// Of `String::push`, taken on trust as std documents it: the character is appended to the
/// end of the string, and what stood there before stays.
pub assume_specification[ String::push ](s: &mut String, ch: char)
    ensures
        final(s)@ == old(s)@.push(ch),
;

/// What stands for one character in escaped text: an underscore gets a backslash in front.
pub open spec fn escaped_char(c: char) -> Seq<char> {
    if c == '_' {
        seq!['\\', '_']
    } else {
        seq![c]
    }
}

/// `text` with a backslash in front of every underscore.
pub open spec fn escaped(text: Seq<char>) -> Seq<char>
    decreases text.len(),
{
    if text.len() == 0 {
        Seq::empty()
    } else {
        escaped(text.drop_last()) + escaped_char(text.last())
    }
}

/// Puts a backslash in front of every underscore, so that a renderer that reads an
/// underscore as markup shows the text as written.
pub fn escape_underscores(text: &str) -> (out: String)
    ensures
        out@ == escaped(text@),
{
    let mut out = String::new();
    for c in it: text.chars()
        invariant
            it.seq() == text@,
            out@ == escaped(text@.take(it.index() as int)),
    {
        proof {
            let upto = text@.take(it.index() + 1);
            assert(upto.drop_last() == text@.take(it.index() as int));
            assert(upto.last() == c);
        }
        if c == '_' {
            out.push('\\');
            out.push('_');
        } else {
            out.push(c);
        }
    }
    proof {
        assert(text@.take(text@.len() as int) == text@);
    }
    out
}

/// What follows "Input" on the input axis.
pub open spec fn input_suffix(value_type: ValueType) -> Seq<char> {
    match value_type {
        ValueType::Bytes => " Size (Bytes)"@,
        ValueType::Elements => " Size (Elements)"@,
        ValueType::Value => ""@,
    }
}

/// The title of a comparison chart.
pub fn comparison_title(title: &str) -> (out: String)
    ensures
        out@ == escaped(title@) + ": Comparison"@,
{
    escape_underscores(title).concat(": Comparison")
}

/// The title of a violin chart.
pub fn violin_title(title: &str) -> (out: String)
    ensures
        out@ == escaped(title@) + ": Violin plot"@,
{
    escape_underscores(title).concat(": Violin plot")
}

/// The label of the input axis of a comparison chart, which says what the inputs count.
pub fn input_label(value_type: ValueType) -> (out: String)
    ensures
        out@ == "Input"@ + input_suffix(value_type),
{
    let suffix = match value_type {
        ValueType::Bytes => " Size (Bytes)",
        ValueType::Elements => " Size (Elements)",
        ValueType::Value => "",
    };
    String::from_str("Input").concat(suffix)
}

/// The label of the axis along which the measured times run, in the given unit.
pub fn average_time_label(unit: &str) -> (out: String)
    ensures
        out@ == "Average time ("@ + unit@ + ")"@,
{
    String::from_str("Average time (").concat(unit).concat(")")
}

} // verus!
