//! Presenting errors and unexpected API responses to the user.
use vstd::prelude::*;

use crate::text::views;

verus! {

#[verifier::external_type_specification]
#[verifier::external_body]
pub struct ExReport(eyre::Report);

/// What a report's chain holds: the message of each error in it, from the
/// report's own error down to the root cause.
pub uninterp spec fn report_chain(report: eyre::Report) -> Seq<Seq<char>>;

/// `text` re-rendered as pretty-printed JSON, or `None` where it is not JSON.
pub uninterp spec fn pretty_json_of(text: Seq<char>) -> Option<Seq<char>>;

/// `eyre::Report::chain`, each error rendered with `to_string`: the messages
/// of the chain, the report's own error first.
#[verifier::external_body]
fn chain_messages(report: &eyre::Report) -> (messages: Vec<String>)
    ensures
        views(messages@) == report_chain(*report),
{
    report.chain().map(|cause| cause.to_string()).collect()
}

/// `serde_json::from_str::<serde_json::Value>` followed by
/// `serde_json::to_string_pretty`: the text pretty-printed, where it parses as JSON.
#[verifier::external_body]
fn pretty_json(text: &str) -> (r: Option<String>)
    ensures
        match r {
            Some(p) => pretty_json_of(text@) == Some(p@),
            None => pretty_json_of(text@) is None,
        },
{
    match serde_json::from_str::<serde_json::Value>(text) {
        Ok(value) => serde_json::to_string_pretty(&value).ok(),
        Err(_) => None,
    }
}

/// `lines` shown one per line, each behind an arrow.
pub open spec fn arrowed(lines: Seq<Seq<char>>) -> Seq<char>
    decreases lines.len(),
{
    if lines.len() == 0 {
        Seq::empty()
    } else if lines.len() == 1 {
        "-> "@ + lines[0]
    } else {
        arrowed(lines.drop_last()) + "\n"@ + "-> "@ + lines.last()
    }
}

/// The messages of an error chain (outermost first) shown for the user: the
/// root cause first, each message on its own line behind an arrow.
pub fn format_messages_for_user(messages: &Vec<String>) -> (s: String)
    ensures
        s@ == arrowed(views(messages@).reverse()),
{
    let ghost rev = views(messages@).reverse();
    let n = messages.len();
    let mut s = String::new();
    let mut i: usize = 0;
    while i < n
        invariant
            n == messages@.len(),
            rev == views(messages@).reverse(),
            i <= n,
            s@ == arrowed(rev.take(i as int)),
        decreases n - i,
    {
        assert(rev.take(i as int + 1).drop_last() =~= rev.take(i as int));
        assert(rev.take(i as int + 1).last() == messages@[n - 1 - i]@);
        if i > 0 {
            s.append("\n");
        } else {
            assert(rev.take(0) =~= Seq::<Seq<char>>::empty());
        }
        s.append("-> ");
        s.append(messages[n - 1 - i].as_str());
        i = i + 1;
    }
    assert(rev.take(n as int) =~= rev);
    s
}

/// Shows a report's chain of errors for the user: the root cause first, each
/// message on its own line behind an arrow.
pub fn format_eyre_chain_for_user(e: eyre::Report) -> (s: String)
    ensures
        s@ == arrowed(report_chain(e).reverse()),
{
    let messages = chain_messages(&e);
    format_messages_for_user(&messages)
}

/// The body of an "unexpected API response" error: the response pretty-printed
/// where it is JSON, the response as it came otherwise.
pub fn unexpected_response_body(text: &str) -> (body: String)
    ensures
        body@ == match pretty_json_of(text@) {
            Some(p) => p,
            None => text@,
        },
{
    match pretty_json(text) {
        Some(p) => p,
        None => String::from_str(text),
    }
}

} // verus!
