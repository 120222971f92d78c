use vstd::prelude::*;
use crate::messaging::{spec_is_new_user, spec_suspicious_url, is_new_user, is_suspicious_url};
use vstd::string::StringExecFns;
use vstd::string::StrSliceExecFns;

verus! {

/// How many prior messages are offered to the classifier.
pub const SPAM_CONTEXT_LENGTH: usize = 3;

/// Character budget for the classifier input.
pub const SPAM_MESSAGE_LIMIT_CHARS: usize = 2048;

/// The three-way outcome of judging one message.
pub enum MessageClassification {
    /// Nothing to act on.
    Normal,
    /// The classifier could not be reached or read: suspicious but
    /// unconfirmed.
    MaybeSpam,
    /// The classifier confirmed spam, for the recorded reason.
    DefinitelySpam(String),
}

/// Whether a message merits an oracle call at all: it must carry a link
/// outside the allow-list or ping everyone, and its author must count as
/// new.
pub open spec fn spec_should_classify(
    content: Seq<char>,
    mention_everyone: bool,
    join_date: Option<i64>,
    now: i64,
) -> bool {
    (spec_suspicious_url(content) || mention_everyone) && spec_is_new_user(join_date, now)
}

/// Decides whether a message is worth sending to the classifier at all.
pub fn should_classify(
    content: &str,
    mention_everyone: bool,
    join_date: Option<i64>,
    now: i64,
) -> (r: bool)
    ensures
        r == spec_should_classify(content@, mention_everyone, join_date, now),
{
    (is_suspicious_url(content) || mention_everyone) && is_new_user(join_date, now)
}

/// What JSON parsing reads out of a text for a given pair of field names:
/// the named boolean field and the named string field of the object, or
/// nothing when the text is not a JSON object carrying both.
pub uninterp spec fn json_verdict_of(
    s: Seq<char>,
    flag_field: Seq<char>,
    text_field: Seq<char>,
) -> Option<(bool, Seq<char>)>;

/// Relies on serde_json::from_str and serde_json::Value's accessors: what a
/// JSON text parses to depends on that text alone.
#[verifier::external_body]
pub(crate) fn parse_json_verdict(s: &str, flag_field: &str, text_field: &str) -> (r: Option<
    (bool, String),
>)
    ensures
        match r {
            Some(v) => json_verdict_of(s@, flag_field@, text_field@) == Some((v.0, v.1@)),
            None => json_verdict_of(s@, flag_field@, text_field@) is None,
        },
{
    let value: serde_json::Value = serde_json::from_str(s).ok()?;
    let flag = value.get(flag_field)?.as_bool()?;
    let text = value.get(text_field)?.as_str()?.to_string();
    Some((flag, text))
}

/// Reads the oracle's answer into a verdict. A missing or unreadable
/// answer counts as unconfirmed suspicion; otherwise the answer's own flag
/// settles the matter.
pub fn classify_from_reply(reply: Option<String>) -> (r: MessageClassification)
    ensures
        reply is None ==> r is MaybeSpam,
        reply matches Some(s) ==> match json_verdict_of(s@, "is_spam"@, "reason"@) {
            None => r is MaybeSpam,
            Some(v) => if v.0 {
                (r matches MessageClassification::DefinitelySpam(reason) && reason@ == v.1)
            } else {
                r is Normal
            },
        },
{
    match reply {
        None => MessageClassification::MaybeSpam,
        Some(s) => match parse_json_verdict(s.as_str(), "is_spam", "reason") {
            None => MessageClassification::MaybeSpam,
            Some((is_spam, reason)) => if is_spam {
                MessageClassification::DefinitelySpam(reason)
            } else {
                MessageClassification::Normal
            },
        },
    }
}

/// At most `count` entries of the offered context, in order.
pub open spec fn spec_capped(context: Seq<Seq<char>>, count: nat) -> Seq<Seq<char>> {
    if context.len() <= count {
        context
    } else {
        context.take(count as int)
    }
}

/// The prefix of the offered context that the character budget admits:
/// starting from the candidate message's own length, each entry is admitted
/// only while the running total stays within the budget, and the first entry
/// that would exceed it stops inclusion outright.
pub open spec fn spec_admitted_context(context: Seq<Seq<char>>, base: nat, limit: nat) -> Seq<
    Seq<char>,
>
    decreases context.len(),
{
    if context.len() == 0 {
        Seq::empty()
    } else if base + context[0].len() > limit {
        Seq::empty()
    } else {
        seq![context[0]] + spec_admitted_context(
            context.drop_first(),
            base + context[0].len(),
            limit,
        )
    }
}

/// The context entries the given count and budget admit for this message.
fn admitted_context(
    message: &str,
    context: &Vec<String>,
    context_length: usize,
    message_limit_chars: usize,
) -> (r: Vec<String>)
    ensures
        r.deep_view() == spec_admitted_context(
            spec_capped(context.deep_view(), context_length as nat),
            message@.len(),
            message_limit_chars as nat,
        ),
{
    let ghost ctxk = spec_capped(context.deep_view(), context_length as nat);
    let ghost limit = message_limit_chars as nat;
    let ghost full = spec_admitted_context(ctxk, message@.len(), limit);
    let k = if context_length < context.len() {
        context_length
    } else {
        context.len()
    };
    assert(ctxk =~= context.deep_view().take(k as int));
    let mut out: Vec<String> = Vec::new();
    let mut base: usize = message.unicode_len();
    let mut i: usize = 0;
    proof {
        assert(ctxk.skip(0) =~= ctxk);
        assert(out.deep_view() + spec_admitted_context(ctxk, base as nat, limit) =~= full);
    }
    loop
        invariant
            k <= context@.len(),
            ctxk == context.deep_view().take(k as int),
            ctxk.len() == k,
            i <= k,
            out.deep_view() + spec_admitted_context(ctxk.skip(i as int), base as nat, limit)
                =~= full,
            limit == message_limit_chars as nat,
        ensures
            out.deep_view() =~= full,
        decreases k - i,
    {
        if i >= k {
            assert(ctxk.skip(i as int) =~= Seq::<Seq<char>>::empty());
            break ;
        }
        assert(ctxk.skip(i as int)[0] == context.deep_view()[i as int]);
        let c_len = context[i].as_str().unicode_len();
        let over = if base > message_limit_chars {
            true
        } else {
            c_len > message_limit_chars - base
        };
        if over {
            break ;
        }
        let ghost prev = out.deep_view();
        out.push(context[i].clone());
        assert(out.deep_view() =~= prev.push(context.deep_view()[i as int]));
        base = base + c_len;
        i = i + 1;
        proof {
            assert(ctxk.skip(i - 1).drop_first() =~= ctxk.skip(i as int));
        }
    }
    out
}

/// The messages handed to the classifier for a candidate: the admitted
/// context entries in their stored order, then the candidate itself.
pub open spec fn spec_build_message(
    message: Seq<char>,
    context: Seq<Seq<char>>,
    count: nat,
    limit: nat,
) -> Seq<Seq<char>> {
    spec_admitted_context(spec_capped(context, count), message.len(), limit).push(message)
}

/// Assembles the texts sent for one classification request, oldest context
/// first and the candidate message last. The caller attaches roles and its
/// fixed system prompt when it turns these into a request.
pub fn build_message(
    message: String,
    context: Vec<String>,
    context_length: usize,
    message_limit_chars: usize,
) -> (r: Vec<String>)
    ensures
        r.deep_view() == spec_build_message(
            message@,
            context.deep_view(),
            context_length as nat,
            message_limit_chars as nat,
        ),
{
    let mut out = admitted_context(message.as_str(), &context, context_length, message_limit_chars);
    let ghost adm = out.deep_view();
    out.push(message);
    assert(out.deep_view() =~= adm.push(message@));
    out
}

/// The admitted context entries run together, most recently admitted first.
pub open spec fn spec_rev_concat(ss: Seq<Seq<char>>) -> Seq<char>
    decreases ss.len(),
{
    if ss.len() == 0 {
        Seq::empty()
    } else {
        spec_rev_concat(ss.drop_first()) + ss[0]
    }
}

/// The single text handed to the classifier for a candidate message: the
/// admitted context entries, each prepended in front of what came before,
/// and the candidate message at the end.
pub open spec fn spec_classifier_input(message: Seq<char>, context: Seq<Seq<char>>) -> Seq<char> {
    spec_rev_concat(
        spec_admitted_context(
            spec_capped(context, SPAM_CONTEXT_LENGTH as nat),
            message.len(),
            SPAM_MESSAGE_LIMIT_CHARS as nat,
        ),
    ) + message
}

/// Builds the classifier's input text for a candidate message and its
/// context window.
pub fn build_classifier_input(message: &str, context: &Vec<String>) -> (r: String)
    ensures
        r@ == spec_classifier_input(message@, context.deep_view()),
{
    let adm = admitted_context(message, context, SPAM_CONTEXT_LENGTH, SPAM_MESSAGE_LIMIT_CHARS);
    let ghost dv = adm.deep_view();
    let mut out = String::new();
    let mut i: usize = adm.len();
    assert(dv.skip(i as int) =~= Seq::<Seq<char>>::empty());
    while i > 0
        invariant
            i <= dv.len(),
            dv == adm.deep_view(),
            adm@.len() == dv.len(),
            out@ == spec_rev_concat(dv.skip(i as int)),
        decreases i,
    {
        i = i - 1;
        out.append(adm[i].as_str());
        proof {
            assert(dv.skip(i as int).drop_first() =~= dv.skip(i + 1));
            assert(dv.skip(i as int)[0] == dv[i as int]);
        }
    }
    assert(dv.skip(0) =~= dv);
    out.append(message);
    out
}

} // verus!
