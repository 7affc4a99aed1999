//! The statements the host runs against the usage store.

use vstd::prelude::*;
use crate::text::{opt_chars, opt_seq, strings_view};

verus! {

/// Stores one completed record; parameters in order: session id, agent,
/// cost in dollars, tokens in, tokens out, tokens total, duration, raw text.
pub const USAGE_INSERT_SQL: &'static str = "INSERT INTO token_usage (session_id, agent, cost_usd, tokens_in, tokens_out, tokens_total, duration_s, raw_output) VALUES (?1, ?2, ?3, ?4, ?5, ?6, ?7, ?8)";

pub const USAGE_SELECT_SQL: &'static str = "SELECT id, session_id, agent, cost_usd, tokens_in, tokens_out, tokens_total, duration_s, captured_at, COALESCE(raw_output, '') FROM token_usage WHERE 1=1";

pub const FROM_FILTER: &'static str = " AND captured_at >= ?";

pub const TO_FILTER: &'static str = " AND captured_at <= ?";

pub const AGENT_FILTER: &'static str = " AND agent = ?";

pub const SESSION_FILTER: &'static str = " AND session_id = ?";

pub const USAGE_ORDER_SQL: &'static str = " ORDER BY captured_at DESC LIMIT 5000";

/// A query with its positional parameters.
pub struct UsageQuery {
    pub sql: String,
    pub params: Vec<String>,
}

pub open spec fn filter_text(given: Option<Seq<char>>, clause: Seq<char>) -> Seq<char> {
    match given {
        Some(_) => clause,
        None => Seq::empty(),
    }
}

/// The usage query: every given bound or key adds its filter, in a fixed
/// order, and its value as the next parameter; newest records first.
pub open spec fn usage_query_text(
    from: Option<Seq<char>>,
    to: Option<Seq<char>>,
    agent: Option<Seq<char>>,
    session: Option<Seq<char>>,
) -> Seq<char> {
    USAGE_SELECT_SQL@ + filter_text(from, FROM_FILTER@) + filter_text(to, TO_FILTER@) + filter_text(
        agent,
        AGENT_FILTER@,
    ) + filter_text(session, SESSION_FILTER@) + USAGE_ORDER_SQL@
}

fn add_filter(sql: &mut String, params: &mut Vec<String>, given: Option<String>, clause: &str)
    ensures
        final(sql)@ == old(sql)@ + filter_text(opt_chars(given), clause@),
        strings_view(final(params)@) == strings_view(old(params)@) + opt_seq(opt_chars(given)),
{
    match given {
        Some(v) => {
            sql.append(clause);
            params.push(v);
            assert(strings_view(params@) =~= strings_view(old(params)@) + seq![v@]);
        },
        None => {
            assert(sql@ =~= old(sql)@ + Seq::<char>::empty());
            assert(strings_view(params@) =~= strings_view(old(params)@) + Seq::<Seq<char>>::empty());
        },
    }
}

pub fn usage_query(
    from: Option<String>,
    to: Option<String>,
    agent: Option<String>,
    session_id: Option<String>,
) -> (r: UsageQuery)
    ensures
        r.sql@ == usage_query_text(
            opt_chars(from),
            opt_chars(to),
            opt_chars(agent),
            opt_chars(session_id),
        ),
        strings_view(r.params@) == opt_seq(opt_chars(from)) + opt_seq(opt_chars(to)) + opt_seq(
            opt_chars(agent),
        ) + opt_seq(opt_chars(session_id)),
{
    let ghost (f, t, a, s) = (opt_chars(from), opt_chars(to), opt_chars(agent), opt_chars(session_id));
    let mut sql = USAGE_SELECT_SQL.to_owned();
    let mut params: Vec<String> = Vec::new();
    assert(strings_view(params@) =~= Seq::<Seq<char>>::empty());
    add_filter(&mut sql, &mut params, from, FROM_FILTER);
    add_filter(&mut sql, &mut params, to, TO_FILTER);
    add_filter(&mut sql, &mut params, agent, AGENT_FILTER);
    add_filter(&mut sql, &mut params, session_id, SESSION_FILTER);
    sql.append(USAGE_ORDER_SQL);
    assert(strings_view(params@) =~= opt_seq(f) + opt_seq(t) + opt_seq(a) + opt_seq(s));
    UsageQuery { sql, params }
}

} // verus!
