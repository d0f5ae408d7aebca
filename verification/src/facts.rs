//! Experimental semantic facts supplied by an external analyzer.
//!
//! Formatting options are stable user preferences; facts describe
//! source-specific knowledge, such as "this wrapper function forwards its
//! arguments to `table`".
use vstd::prelude::*;

use crate::text::str_eq;

verus! {

/// Hint for a table-like call: how many columns it has, where known.
#[derive(Debug, Clone, Copy, PartialEq, Eq, Structural)]
pub struct TableLikeHint {
    pub columns: Option<usize>,
}

/// How a function call should be formatted.
#[derive(Debug, Clone, Copy, PartialEq, Eq, Structural)]
pub enum FunctionHint {
    TableLike(TableLikeHint),
    GridLike(TableLikeHint),
}

impl FunctionHint {
    pub fn table_like(columns: Option<usize>) -> (res: Self)
        ensures
            res == FunctionHint::TableLike(TableLikeHint { columns }),
    {
        Self::TableLike(TableLikeHint { columns })
    }

    pub fn grid_like(columns: Option<usize>) -> (res: Self)
        ensures
            res == FunctionHint::GridLike(TableLikeHint { columns }),
    {
        Self::GridLike(TableLikeHint { columns })
    }

    /// The table hint that both kinds carry.
    pub open spec fn spec_table_like_hint(self) -> TableLikeHint {
        match self {
            FunctionHint::TableLike(hint) => hint,
            FunctionHint::GridLike(hint) => hint,
        }
    }

    pub fn table_like_hint(self) -> (res: TableLikeHint)
        ensures
            res == self.spec_table_like_hint(),
    {
        match self {
            Self::TableLike(hint) | Self::GridLike(hint) => hint,
        }
    }
}

/// A fact about the calls of one function: those at a source span (a span's
/// number), or those of a callee name.
#[derive(Debug, Clone, PartialEq, Eq)]
pub struct FunctionFact {
    pub callee_span: Option<u64>,
    pub callee_name: Option<String>,
    pub hint: FunctionHint,
}

/// A call to look up: the span of its callee, the callee's name, and its full
/// path (such as `pkg.my-table`).
#[derive(Debug, Clone, Copy, PartialEq, Eq)]
pub struct FunctionQuery<'a> {
    pub callee_span: Option<u64>,
    pub callee_name: Option<&'a str>,
    pub callee_path: Option<&'a str>,
}

/// The facts, in the order they were added.
#[derive(Debug, Clone, PartialEq, Eq)]
pub struct FormatFacts {
    function_facts: Vec<FunctionFact>,
}

/// The fact is about the call at this span.
pub open spec fn span_matches(fact: FunctionFact, span: Option<u64>) -> bool {
    fact.callee_span is Some && span is Some && fact.callee_span->0 == span->0
}

/// The fact names the callee, by its name or its full path.
pub open spec fn path_matches(fact: FunctionFact, query: FunctionQuery) -> bool {
    fact.callee_name matches Some(name) && ((query.callee_path matches Some(p) && p@ == name@) || (
    query.callee_name matches Some(n) && n@ == name@))
}

/// The hint of the first fact about the call at this span.
pub open spec fn first_span_hint(facts: Seq<FunctionFact>, span: Option<u64>) -> Option<
    FunctionHint,
>
    decreases facts.len(),
{
    if facts.len() == 0 {
        None
    } else {
        match first_span_hint(facts.drop_last(), span) {
            Some(h) => Some(h),
            None => if span_matches(facts.last(), span) {
                Some(facts.last().hint)
            } else {
                None
            },
        }
    }
}

/// The hint of the first fact that names the callee.
pub open spec fn first_path_hint(facts: Seq<FunctionFact>, query: FunctionQuery) -> Option<
    FunctionHint,
>
    decreases facts.len(),
{
    if facts.len() == 0 {
        None
    } else {
        match first_path_hint(facts.drop_last(), query) {
            Some(h) => Some(h),
            None => if path_matches(facts.last(), query) {
                Some(facts.last().hint)
            } else {
                None
            },
        }
    }
}

/// The hint for a call: that of the first fact about its span, else that of
/// the first fact that names it.
pub open spec fn hint_for(facts: Seq<FunctionFact>, query: FunctionQuery) -> Option<FunctionHint> {
    match first_span_hint(facts, query.callee_span) {
        Some(h) => Some(h),
        None => first_path_hint(facts, query),
    }
}

impl FunctionFact {
    pub fn by_name(callee_name: &str, hint: FunctionHint) -> (res: Self)
        ensures
            res.callee_span is None,
            res.callee_name matches Some(n) && n@ == callee_name@,
            res.hint == hint,
    {
        Self { callee_span: None, callee_name: Some(callee_name.to_owned()), hint }
    }

    pub fn by_span(callee_span: u64, hint: FunctionHint) -> (res: Self)
        ensures
            res == (FunctionFact { callee_span: Some(callee_span), callee_name: None, hint }),
    {
        Self { callee_span: Some(callee_span), callee_name: None, hint }
    }

    fn matches_span(&self, callee_span: Option<u64>) -> (res: bool)
        ensures
            res == span_matches(*self, callee_span),
    {
        match (self.callee_span, callee_span) {
            (Some(fact_span), Some(query_span)) => fact_span == query_span,
            _ => false,
        }
    }

    fn matches_path(&self, query: FunctionQuery<'_>) -> (res: bool)
        ensures
            res == path_matches(*self, query),
    {
        let callee_name = match &self.callee_name {
            Some(name) => name.as_str(),
            None => {
                return false;
            },
        };
        let by_path = match query.callee_path {
            Some(p) => str_eq(p, callee_name),
            None => false,
        };
        let by_name = match query.callee_name {
            Some(n) => str_eq(n, callee_name),
            None => false,
        };
        by_path || by_name
    }
}

impl View for FormatFacts {
    type V = Seq<FunctionFact>;

    closed spec fn view(&self) -> Seq<FunctionFact> {
        self.function_facts@
    }
}

impl Default for FormatFacts {
    fn default() -> (res: Self)
        ensures
            res@ == Seq::<FunctionFact>::empty(),
    {
        FormatFacts { function_facts: Vec::new() }
    }
}

impl FormatFacts {
    pub fn new() -> (res: Self)
        ensures
            res@ == Seq::<FunctionFact>::empty(),
    {
        FormatFacts { function_facts: Vec::new() }
    }

    pub fn add_function_fact(&mut self, fact: FunctionFact)
        ensures
            final(self)@ == old(self)@.push(fact),
    {
        self.function_facts.push(fact);
    }

    pub fn with_function_fact(self, fact: FunctionFact) -> (res: Self)
        ensures
            res@ == self@.push(fact),
    {
        let mut facts = self;
        facts.add_function_fact(fact);
        facts
    }

    pub fn add_function_name_hint(&mut self, callee_name: &str, hint: FunctionHint)
        ensures
            final(self)@.len() == old(self)@.len() + 1,
            final(self)@.drop_last() == old(self)@,
            final(self)@.last().callee_span is None,
            final(self)@.last().callee_name matches Some(n) && n@ == callee_name@,
            final(self)@.last().hint == hint,
    {
        self.add_function_fact(FunctionFact::by_name(callee_name, hint));
        proof {
            assert(self@.drop_last() =~= old(self)@);
        }
    }

    /// The hint for a call: a fact about the call's span comes first, then a
    /// fact that names the callee; among facts of one kind, the first added.
    pub fn function_hint(&self, query: FunctionQuery<'_>) -> (res: Option<FunctionHint>)
        ensures
            res == hint_for(self@, query),
    {
        let facts = &self.function_facts;
        let mut i: usize = 0;
        while i < facts.len()
            invariant
                i <= facts.len(),
                facts@ == self@,
                first_span_hint(facts@.take(i as int), query.callee_span) is None,
            decreases facts.len() - i,
        {
            proof {
                assert(facts@.take(i + 1).drop_last() =~= facts@.take(i as int));
            }
            if facts[i].matches_span(query.callee_span) {
                proof {
                    assert(facts@.take(i + 1).last() == facts@[i as int]);
                    assert(first_span_hint(facts@.take(i + 1), query.callee_span) == Some(
                        facts@[i as int].hint,
                    ));
                    lemma_first_hint_prefix(facts@, query, i as int);
                }
                return Some(facts[i].hint);
            }
            i = i + 1;
        }
        proof {
            assert(facts@.take(facts.len() as int) =~= facts@);
        }
        let mut i: usize = 0;
        while i < facts.len()
            invariant
                i <= facts.len(),
                facts@ == self@,
                first_span_hint(facts@, query.callee_span) is None,
                first_path_hint(facts@.take(i as int), query) is None,
            decreases facts.len() - i,
        {
            proof {
                assert(facts@.take(i + 1).drop_last() =~= facts@.take(i as int));
            }
            if facts[i].matches_path(query) {
                proof {
                    assert(facts@.take(i + 1).last() == facts@[i as int]);
                    assert(first_path_hint(facts@.take(i + 1), query) == Some(facts@[i as int].hint));
                    lemma_first_hint_prefix(facts@, query, i as int);
                }
                return Some(facts[i].hint);
            }
            i = i + 1;
        }
        proof {
            assert(facts@.take(facts.len() as int) =~= facts@);
        }
        None
    }
}

/// Once a prefix of the facts gives a hint, the whole sequence gives the same.
proof fn lemma_first_hint_prefix(facts: Seq<FunctionFact>, query: FunctionQuery, i: int)
    requires
        0 <= i < facts.len(),
    ensures
        first_span_hint(facts.take(i + 1), query.callee_span) is Some ==> first_span_hint(
            facts,
            query.callee_span,
        ) == first_span_hint(facts.take(i + 1), query.callee_span),
        first_path_hint(facts.take(i + 1), query) is Some ==> first_path_hint(facts, query)
            == first_path_hint(facts.take(i + 1), query),
    decreases facts.len(),
{
    if i + 1 < facts.len() {
        lemma_first_hint_prefix(facts.drop_last(), query, i);
        assert(facts.drop_last().take(i + 1) =~= facts.take(i + 1));
    } else {
        assert(facts.take(i + 1) =~= facts);
    }
}

/// Both kinds of hint give back the table hint they were made with.
pub proof fn lemma_table_like_hint_roundtrip(columns: Option<usize>)
    ensures
        FunctionHint::TableLike(TableLikeHint { columns }).spec_table_like_hint() == (TableLikeHint {
            columns,
        }),
        FunctionHint::GridLike(TableLikeHint { columns }).spec_table_like_hint() == (TableLikeHint {
            columns,
        }),
{
}

/// Adding a fact never overrides an earlier one of the same kind, and a fact
/// about the call's span wins over any fact that names the callee: the hint
/// after adding `fact` is the old one where a span fact already matched; else
/// the new fact's where it matches the span; else the old one where a name fact
/// matched; else the new fact's where it names the callee.
pub proof fn lemma_add_fact_precedence(
    facts: Seq<FunctionFact>,
    fact: FunctionFact,
    query: FunctionQuery,
)
    ensures
        hint_for(facts.push(fact), query) == if first_span_hint(facts, query.callee_span) is Some {
            hint_for(facts, query)
        } else if span_matches(fact, query.callee_span) {
            Some(fact.hint)
        } else if first_path_hint(facts, query) is Some {
            hint_for(facts, query)
        } else if path_matches(fact, query) {
            Some(fact.hint)
        } else {
            None
        },
{
    let all = facts.push(fact);
    assert(all.drop_last() =~= facts);
}

} // verus!
