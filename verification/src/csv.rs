//! Lines of the CSV logs.

use crate::text;
use vstd::prelude::*;

verus! {

/// A message with `,` in place of the field separator.
pub open spec fn safe_message(message: Seq<char>) -> Seq<char> {
    text::replaced(message, ';', ',')
}

/// The status field of a failed probe.
pub open spec fn error_status(message: Seq<char>) -> Seq<char> {
    "ERROR: "@ + safe_message(message)
}

/// The status field of a failed probe.
pub fn error_field(message: &str) -> (r: String)
    ensures
        r@ == error_status(message@),
{
    let mut s = "ERROR: ".to_owned();
    s.append(text::replace_char(message, ';', ',').as_str());
    s
}

/// A line: the fields with `;` between them.
pub open spec fn line_of(fields: Seq<Seq<char>>) -> Seq<char> {
    text::joined(fields, ";"@)
}

/// A line with the given fields.
pub fn csv_line(fields: &Vec<String>) -> (r: String)
    ensures
        r@ == line_of(fields.deep_view()),
{
    text::join(fields, ";")
}

/// A line is read back as the fields it was written from, as long as no field
/// holds the separator.
pub proof fn law_line_splits_back(fields: Seq<Seq<char>>)
    requires
        fields.len() > 0,
        forall|i: int| 0 <= i < fields.len() ==> !(#[trigger] fields[i]).contains(';'),
    ensures
        text::fields(line_of(fields), ';') == fields,
{
    reveal_strlit(";");
    assert(";"@ =~= seq![';']);
    text::lemma_fields_joined(fields, ';');
}

/// The status field of a failed probe never holds the separator, whatever the
/// message is.
pub proof fn law_error_status_is_one_field(message: Seq<char>)
    ensures
        !error_status(message).contains(';'),
{
    reveal_strlit("ERROR: ");
    let s = error_status(message);
    assert forall|i: int| 0 <= i < s.len() implies s[i] != ';' by {
        if i >= 7 {
            assert(s[i] == safe_message(message)[i - 7]);
        }
    }
}

/// The status of an error is the word ERROR with the message behind it, in which
/// commas stand in the place of semicolons and nothing else changes.
pub proof fn law_error_status_keeps_the_message(message: Seq<char>)
    ensures
        error_status(message).len() == 7 + message.len(),
        error_status(message).take(7) == "ERROR: "@,
        forall|i: int|
            0 <= i < message.len() ==> #[trigger] error_status(message)[7 + i] == (if message[i]
                == ';' {
                ','
            } else {
                message[i]
            }),
{
    reveal_strlit("ERROR: ");
    let s = error_status(message);
    assert(s.take(7) =~= "ERROR: "@);
    assert forall|i: int| 0 <= i < message.len() implies #[trigger] s[7 + i] == (if message[i]
        == ';' {
        ','
    } else {
        message[i]
    }) by {
        assert(s[7 + i] == safe_message(message)[i]);
    }
}

} // verus!
