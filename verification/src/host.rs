//! The host shell's values, as far as the library reads and builds them.
//!
//! Nothing in this module is proved. Each function calls one function of `nu_protocol`, and
//! its contract is taken on trust from that crate. A value of the host is opaque here: what
//! a constructor returns is given a name, and the contracts elsewhere speak of those names.

use nu_protocol::{Record, ShellError, Span, Value};
use vstd::prelude::*;

verus! {

/// `nu_protocol::Span`, a source location of the host. Carried through, never looked into.
#[verifier::external_type_specification]
#[verifier::external_body]
pub struct ExSpan(nu_protocol::Span);

/// `nu_protocol::Value`, a value of the host.
#[verifier::external_type_specification]
#[verifier::external_body]
pub struct ExValue(nu_protocol::Value);

/// `nu_protocol::Record`, the host's record: columns with their values, in insertion order.
#[verifier::external_type_specification]
#[verifier::external_body]
pub struct ExRecord(nu_protocol::Record);

/// The source location that `Value::span` reads off a value.
pub uninterp spec fn value_span(value: Value) -> Span;

/// The text that `Value::as_str` finds in a value: `Some` for a string value, `None` for
/// any other.
pub uninterp spec fn value_text(value: Value) -> Option<Seq<char>>;

/// The string value that `Value::string` builds.
pub uninterp spec fn string_value(text: Seq<char>, span: Span) -> Value;

/// The empty value that `Value::nothing` builds.
pub uninterp spec fn nothing_value(span: Span) -> Value;

/// The record value that `Value::record` builds from a record with the given columns.
pub uninterp spec fn record_value(entries: Seq<(Seq<char>, Value)>, span: Span) -> Value;

/// The error value that `Value::error` builds from a `ShellError::TypeMismatch` with the
/// given message, error and value both tagged with `span`.
pub uninterp spec fn type_mismatch_value(message: Seq<char>, span: Span) -> Value;

/// The columns of a record with their values, in insertion order.
pub uninterp spec fn record_entries(record: Record) -> Seq<(Seq<char>, Value)>;

/// `Value::span`: the source location that the value is tagged with.
#[verifier::external_body]
pub(crate) fn span_of(value: &Value) -> (span: Span)
    ensures
        span == value_span(*value),
{
    value.span()
}

/// `Value::as_str`: the text of a string value. The call fails for a value of any other
/// kind, which is `None` here.
#[verifier::external_body]
pub(crate) fn text_of(value: &Value) -> (text: Option<&str>)
    ensures
        match text {
            Some(s) => value_text(*value) == Some(s@),
            None => value_text(*value) is None,
        },
{
    value.as_str().ok()
}

/// `Value::string`: a string value that holds `val` and is tagged with `span`.
#[verifier::external_body]
pub(crate) fn make_string(val: &str, span: Span) -> (value: Value)
    ensures
        value == string_value(val@, span),
{
    Value::string(val, span)
}

/// `Value::nothing`: the empty value, tagged with `span`.
#[verifier::external_body]
pub(crate) fn make_nothing(span: Span) -> (value: Value)
    ensures
        value == nothing_value(span),
{
    Value::nothing(span)
}

/// `Value::record`: a record value that holds `val` and is tagged with `span`.
#[verifier::external_body]
pub(crate) fn make_record(val: Record, span: Span) -> (value: Value)
    ensures
        value == record_value(record_entries(val), span),
{
    Value::record(val, span)
}

/// `Value::error`, on a `ShellError::TypeMismatch` that carries `message`: an error value,
/// error and value both tagged with `span`.
#[verifier::external_body]
pub(crate) fn make_type_mismatch(message: &str, span: Span) -> (value: Value)
    ensures
        value == type_mismatch_value(message@, span),
{
    Value::error(ShellError::TypeMismatch { err_message: message.into(), span }, span)
}

/// `Record::new`: a record without columns.
#[verifier::external_body]
pub(crate) fn empty_record() -> (record: Record)
    ensures
        record_entries(record) == Seq::<(Seq<char>, Value)>::empty(),
{
    Record::new()
}

/// `Record::push`: puts the column `col` with the value `val` behind the columns already
/// there. It does not look for a column of the same name.
#[verifier::external_body]
pub(crate) fn push_column(record: &mut Record, col: &str, val: Value)
    ensures
        record_entries(*final(record)) == record_entries(*old(record)).push((col@, val)),
{
    record.push(col, val)
}

} // verus!
