//! What holds of the evaluation of every query.

use vstd::prelude::*;
use crate::any_query;
use crate::any_query::{AnyQuery, BooleanQuery, Occur};
use crate::error::ErrorView;
use crate::fields;
use crate::fuzzy_query;
use crate::fuzzy_query::FuzzyTermQueryView;
use crate::phrase;
use crate::phrase_prefix_evaluator;
use crate::phrase_prefix_query;
use crate::phrase_prefix_query::PhrasePrefixQueryView;
use crate::phrase_query;
use crate::phrase_query::PhraseQueryView;
use crate::schema::Field;
use crate::score::{EvaluationView, ScoreView};
use crate::single_document::{BoundView, ContextView, DocumentView};
use crate::term::TermView;
use crate::term_query;
use crate::term_query::TermQueryView;

verus! {

/// The terms of each phrase belong to one field and come in the order of their offsets, as they do
/// in every query that can be made.
pub open spec fn valid(query: AnyQuery) -> bool
    decreases query, 0nat,
{
    match query {
        AnyQuery::Phrase(query) => query@.well_formed(),
        AnyQuery::PhrasePrefix(query) => query@.well_formed(),
        AnyQuery::Boolean(query) => clauses_valid(query.clauses@, query.clauses@.len()),
        AnyQuery::Boost(query) => valid(*query.underlying),
        AnyQuery::ConstScore(query) => valid(*query.query),
        _ => true,
    }
}

/// The first `n` clauses are valid.
pub open spec fn clauses_valid(clauses: Seq<(Occur, AnyQuery)>, n: nat) -> bool
    decreases clauses, n,
{
    if n == 0 || n > clauses.len() {
        true
    } else {
        clauses_valid(clauses, (n - 1) as nat) && valid(clauses[n - 1].1)
    }
}

/// Two documents have the same indexed data for the given fields.
pub open spec fn agree_on(left: DocumentView, right: DocumentView, fields: Seq<Field>) -> bool {
    &&& forall|term: TermView|
        fields.contains(term.field) ==> #[trigger] (left.term_info)(term) == (right.term_info)(term)
    &&& forall|field: Field, start: BoundView, end: BoundView|
        fields.contains(field) ==> #[trigger] (left.visited)(field, start, end) == (right.visited)(
            field,
            start,
            end,
        )
    &&& forall|field: Field|
        fields.contains(field) ==> #[trigger] (left.fieldnorm_id)(field) == (right.fieldnorm_id)(
            field,
        )
}

proof fn fixed_positions_agree(
    query: Seq<char>,
    terms: Seq<(usize, TermView)>,
    field: Field,
    target: nat,
    left: DocumentView,
    right: DocumentView,
)
    requires
        agree_on(left, right, seq![field]),
        forall|i: int| 0 <= i < terms.len() ==> (#[trigger] terms[i]).1.field == field,
    ensures
        phrase::fixed_positions(query, terms, target, left) == phrase::fixed_positions(
            query,
            terms,
            target,
            right,
        ),
    decreases terms.len(),
{
    assert(seq![field].contains(field)) by {
        assert(seq![field][0] == field);
    }
    if terms.len() > 0 {
        let shorter = terms.drop_last();
        assert forall|i: int| 0 <= i < shorter.len() implies (#[trigger] shorter[i]).1.field
            == field by {
            assert(shorter[i] == terms[i]);
        }
        fixed_positions_agree(query, shorter, field, target, left, right);
        let term = terms.last().1;
        assert(terms[terms.len() - 1].1.field == field);
        assert((left.term_info)(term) == (right.term_info)(term));
    }
}

proof fn terms_agree(
    query: TermQueryView,
    context: ContextView,
    left: DocumentView,
    right: DocumentView,
)
    requires
        term_query::compiled(query, context) is Ok,
        agree_on(left, right, seq![query.term.field]),
    ensures
        term_query::term_result(term_query::compiled(query, context)->Ok_0, left)
            == term_query::term_result(term_query::compiled(query, context)->Ok_0, right),
{
    let term = query.term;
    assert(seq![term.field][0] == term.field);
    assert((left.term_info)(term) == (right.term_info)(term));
    assert((left.fieldnorm_id)(term.field) == (right.fieldnorm_id)(term.field));
}

proof fn phrases_agree(
    query: PhraseQueryView,
    context: ContextView,
    left: DocumentView,
    right: DocumentView,
)
    requires
        query.well_formed(),
        phrase_query::compiled(query, context) is Ok,
        agree_on(left, right, seq![query.field]),
    ensures
        phrase_query::phrase_result(phrase_query::compiled(query, context)->Ok_0, left)
            == phrase_query::phrase_result(phrase_query::compiled(query, context)->Ok_0, right),
{
    let evaluator = phrase_query::compiled(query, context)->Ok_0;
    let field = evaluator.field;
    assert(seq![field][0] == field);
    assert((left.fieldnorm_id)(field) == (right.fieldnorm_id)(field));
    fixed_positions_agree(
        "PhraseQuery"@,
        evaluator.phrase_terms,
        field,
        evaluator.phrase_terms.last().0 as nat,
        left,
        right,
    );
}

proof fn phrase_prefixes_agree(
    query: PhrasePrefixQueryView,
    context: ContextView,
    left: DocumentView,
    right: DocumentView,
)
    requires
        query.well_formed(),
        phrase_prefix_query::compiled(query, context) is Ok,
        agree_on(left, right, seq![query.field]),
    ensures
        ({
            let evaluator = phrase_prefix_query::compiled(query, context)->Ok_0;
            phrase_prefix_evaluator::phrase_prefix_result(evaluator, left)
                == phrase_prefix_evaluator::phrase_prefix_result(evaluator, right)
        }),
{
    let evaluator = phrase_prefix_query::compiled(query, context)->Ok_0;
    let field = evaluator.field;
    assert(seq![field][0] == field);
    assert((left.fieldnorm_id)(field) == (right.fieldnorm_id)(field));
    let start = BoundView::Included(evaluator.prefix);
    let end = phrase_prefix_evaluator::range_end(field, evaluator.prefix);
    assert((left.visited)(field, start, end) == (right.visited)(field, start, end));
    let terms = query.terms();
    assert forall|i: int| 0 <= i < evaluator.phrase_terms.len() implies (
    #[trigger] evaluator.phrase_terms[i]).1.field == field by {
        assert(terms[i] == query.phrase_terms[i]);
    }
    fixed_positions_agree(
        "PhrasePrefixQuery"@,
        evaluator.phrase_terms,
        field,
        evaluator.fixed_position_target as nat,
        left,
        right,
    );
}

proof fn fuzzy_terms_agree(
    query: FuzzyTermQueryView,
    context: ContextView,
    left: DocumentView,
    right: DocumentView,
)
    requires
        fuzzy_query::compiled(query, context) is Ok,
        agree_on(left, right, seq![query.term.field]),
    ensures
        fuzzy_query::fuzzy_result(fuzzy_query::compiled(query, context)->Ok_0, left)
            == fuzzy_query::fuzzy_result(fuzzy_query::compiled(query, context)->Ok_0, right),
{
    let field = query.term.field;
    assert(seq![field][0] == field);
    assert((left.visited)(field, BoundView::Unbounded, BoundView::Unbounded) == (right.visited)(
        field,
        BoundView::Unbounded,
        BoundView::Unbounded,
    ));
}

/// The clauses with each kind of occurrence give the same for two documents.
spec fn clauses_agree(
    clauses: Seq<(Occur, AnyQuery)>,
    n: nat,
    context: ContextView,
    left: DocumentView,
    right: DocumentView,
) -> bool {
    &&& any_query::must_result(clauses, n, context, left) == any_query::must_result(
        clauses,
        n,
        context,
        right,
    )
    &&& any_query::excluded(clauses, n, context, left) == any_query::excluded(
        clauses,
        n,
        context,
        right,
    )
    &&& forall|total: Option<ScoreView>| #[trigger]
        any_query::should_result(clauses, n, context, left, total) == any_query::should_result(
            clauses,
            n,
            context,
            right,
            total,
        )
}

proof fn boolean_query_agrees(
    query: BooleanQuery,
    context: ContextView,
    left: DocumentView,
    right: DocumentView,
)
    requires
        clauses_agree(query.clauses@, query.clauses@.len(), context, left, right),
    ensures
        any_query::query_result(AnyQuery::Boolean(query), context, left) == any_query::query_result(
            AnyQuery::Boolean(query),
            context,
            right,
        ),
{
    let n = query.clauses@.len();
    let required = any_query::required_part(
        any_query::must_result(query.clauses@, n, context, left),
        any_query::excluded(query.clauses@, n, context, left),
    );
    let total = any_query::total_of(required);
    assert(any_query::should_result(query.clauses@, n, context, left, total)
        == any_query::should_result(query.clauses@, n, context, right, total));
}

/// What a compiled query answers for a document depends only on the indexed data of the fields
/// that it requires.
pub proof fn results_depend_on_required_fields(
    query: AnyQuery,
    context: ContextView,
    left: DocumentView,
    right: DocumentView,
)
    requires
        valid(query),
        any_query::compilation_error(query, context) is None,
        agree_on(left, right, any_query::query_fields(query, context)),
    ensures
        any_query::query_result(query, context, left) == any_query::query_result(
            query,
            context,
            right,
        ),
    decreases query, 0nat,
{
    match query {
        AnyQuery::Term(query) => {
            terms_agree(query@, context, left, right);
        },
        AnyQuery::Phrase(query) => {
            phrases_agree(query@, context, left, right);
        },
        AnyQuery::PhrasePrefix(query) => {
            phrase_prefixes_agree(query@, context, left, right);
        },
        AnyQuery::Fuzzy(query) => {
            fuzzy_terms_agree(query@, context, left, right);
        },
        AnyQuery::Boolean(query) => {
            let n = query.clauses@.len();
            let read = any_query::clause_fields(query.clauses@, n, context);
            fields::sorted_set_is_a_set(read);
            assert(agree_on(left, right, read));
            clauses_depend_on_required_fields(query.clauses@, n, context, left, right);
            boolean_query_agrees(query, context, left, right);
        },
        AnyQuery::Boost(query) => {
            results_depend_on_required_fields(
                *query.underlying,
                ContextView { boost: context.boost.push(query.boost), ..context },
                left,
                right,
            );
        },
        AnyQuery::ConstScore(query) => {
            results_depend_on_required_fields(
                *query.query,
                ContextView { statistics: None, ..context },
                left,
                right,
            );
        },
        _ => {},
    }
}

proof fn clauses_depend_on_required_fields(
    clauses: Seq<(Occur, AnyQuery)>,
    n: nat,
    context: ContextView,
    left: DocumentView,
    right: DocumentView,
)
    requires
        n <= clauses.len(),
        clauses_valid(clauses, n),
        any_query::clauses_error(clauses, n, context) is None,
        agree_on(left, right, any_query::clause_fields(clauses, n, context)),
    ensures
        clauses_agree(clauses, n, context, left, right),
    decreases clauses, n,
{
    if n > 0 {
        let m = (n - 1) as nat;
        let before = any_query::clause_fields(clauses, m, context);
        let all = any_query::clause_fields(clauses, n, context);
        let (occur, query) = clauses[n - 1];
        let skipped = any_query::is_skipped(clauses, occur, context);
        let clause_context = any_query::clause_context(occur, context);
        let own = any_query::query_fields(query, clause_context);
        assert forall|field: Field| before.contains(field) implies all.contains(field) by {
            let i = before.index_of(field);
            assert(all[i] == field);
        }
        clauses_depend_on_required_fields(clauses, m, context, left, right);
        if !skipped {
            assert forall|field: Field| own.contains(field) implies all.contains(field) by {
                let i = own.index_of(field);
                assert(all[before.len() + i] == field);
            }
            results_depend_on_required_fields(query, clause_context, left, right);
        }
        assert forall|total: Option<ScoreView>| #[trigger]
            any_query::should_result(clauses, n, context, left, total) == any_query::should_result(
                clauses,
                n,
                context,
                right,
                total,
            ) by {
            assert(any_query::should_result(clauses, m, context, left, total)
                == any_query::should_result(clauses, m, context, right, total));
        }
    }
}

/// The same context, in which only the match state is computed.
pub open spec fn unscored(context: ContextView) -> ContextView {
    ContextView { statistics: None, ..context }
}

/// Where the first result is no error, the second one is none either, and both match or neither
/// does.
pub open spec fn same_match(
    first: Result<EvaluationView, ErrorView>,
    second: Result<EvaluationView, ErrorView>,
) -> bool {
    first matches Ok(first) ==> (second matches Ok(second) && (first is Match <==> second is Match))
}

proof fn terms_match_unscored(query: TermQueryView, context: ContextView, document: DocumentView)
    requires
        term_query::compiled(query, context) is Ok,
    ensures
        term_query::compiled(query, unscored(context)) is Ok,
        same_match(
            term_query::term_result(term_query::compiled(query, context)->Ok_0, document),
            term_query::term_result(term_query::compiled(query, unscored(context))->Ok_0, document),
        ),
{
}

proof fn phrases_match_unscored(
    query: PhraseQueryView,
    context: ContextView,
    document: DocumentView,
)
    requires
        phrase_query::compiled(query, context) is Ok,
    ensures
        phrase_query::compiled(query, unscored(context)) is Ok,
        same_match(
            phrase_query::phrase_result(phrase_query::compiled(query, context)->Ok_0, document),
            phrase_query::phrase_result(
                phrase_query::compiled(query, unscored(context))->Ok_0,
                document,
            ),
        ),
{
}

proof fn phrase_prefixes_match_unscored(
    query: PhrasePrefixQueryView,
    context: ContextView,
    document: DocumentView,
)
    requires
        phrase_prefix_query::compiled(query, context) is Ok,
    ensures
        phrase_prefix_query::compiled(query, unscored(context)) is Ok,
        same_match(
            phrase_prefix_evaluator::phrase_prefix_result(
                phrase_prefix_query::compiled(query, context)->Ok_0,
                document,
            ),
            phrase_prefix_evaluator::phrase_prefix_result(
                phrase_prefix_query::compiled(query, unscored(context))->Ok_0,
                document,
            ),
        ),
{
    let scored = phrase_prefix_query::compiled(query, context)->Ok_0;
    let plain = phrase_prefix_query::compiled(query, unscored(context))->Ok_0;
    assert(phrase_prefix_evaluator::expansions(scored, document)
        == phrase_prefix_evaluator::expansions(plain, document));
}

proof fn fuzzy_terms_match_unscored(
    query: FuzzyTermQueryView,
    context: ContextView,
    document: DocumentView,
)
    requires
        fuzzy_query::compiled(query, context) is Ok,
    ensures
        fuzzy_query::compiled(query, unscored(context)) is Ok,
        same_match(
            fuzzy_query::fuzzy_result(fuzzy_query::compiled(query, context)->Ok_0, document),
            fuzzy_query::fuzzy_result(
                fuzzy_query::compiled(query, unscored(context))->Ok_0,
                document,
            ),
        ),
{
    let scored = fuzzy_query::compiled(query, context)->Ok_0;
    let plain = fuzzy_query::compiled(query, unscored(context))->Ok_0;
    let visited = (document.visited)(scored.field, BoundView::Unbounded, BoundView::Unbounded);
    assert(fuzzy_query::matching_entry(scored) =~= fuzzy_query::matching_entry(plain));
}

/// Computing scores does not change what a query matches: a query that can be compiled for scores
/// can be compiled without them, and where the scored evaluation is no error, the unscored one
/// gives the same match state.
pub proof fn scores_do_not_change_the_match(
    query: AnyQuery,
    context: ContextView,
    document: DocumentView,
)
    requires
        context.statistics is Some,
        any_query::compilation_error(query, context) is None,
    ensures
        any_query::compilation_error(query, unscored(context)) is None,
        same_match(
            any_query::query_result(query, context, document),
            any_query::query_result(query, unscored(context), document),
        ),
    decreases query, 0nat,
{
    match query {
        AnyQuery::Term(query) => {
            terms_match_unscored(query@, context, document);
        },
        AnyQuery::Phrase(query) => {
            phrases_match_unscored(query@, context, document);
        },
        AnyQuery::PhrasePrefix(query) => {
            phrase_prefixes_match_unscored(query@, context, document);
        },
        AnyQuery::Fuzzy(query) => {
            fuzzy_terms_match_unscored(query@, context, document);
        },
        AnyQuery::Boolean(query) => {
            clauses_match_unscored(query.clauses@, query.clauses@.len(), context, document);
            boolean_matches_unscored(query, context, document);
        },
        AnyQuery::Boost(query) => {
            let boosted = ContextView { boost: context.boost.push(query.boost), ..context };
            scores_do_not_change_the_match(*query.underlying, boosted, document);
            assert(unscored(boosted) == (ContextView {
                boost: context.boost.push(query.boost),
                ..unscored(context)
            }));
        },
        AnyQuery::ConstScore(query) => {
            assert(unscored(unscored(context)) == unscored(context));
        },
        _ => {},
    }
}

/// What the clauses of each kind give with scores and without.
spec fn clauses_same(
    clauses: Seq<(Occur, AnyQuery)>,
    n: nat,
    context: ContextView,
    document: DocumentView,
) -> bool {
    let must = any_query::must_result(clauses, n, context, document);
    let plain_must = any_query::must_result(clauses, n, unscored(context), document);
    &&& must matches Ok(must) ==> (plain_must matches Ok(plain) && (must is Some <==> plain is Some)
        && (must is Some ==> (must->0 is Some <==> plain->0 is Some)))
    &&& any_query::excluded(clauses, n, context, document) == any_query::excluded(
        clauses,
        n,
        unscored(context),
        document,
    )
    &&& any_query::clauses_error(clauses, n, unscored(context)) is None
    &&& forall|total: Option<ScoreView>, plain_total: Option<ScoreView>|
        #![trigger any_query::should_result(clauses, n, context, document, total),
            any_query::should_result(clauses, n, unscored(context), document, plain_total)]
        (total is Some <==> plain_total is Some) ==> same_should(
            any_query::should_result(clauses, n, context, document, total),
            any_query::should_result(clauses, n, unscored(context), document, plain_total),
            any_query::has_must(clauses),
            total is Some,
        )
}

/// The clauses that may match give the same with scores and without. Without scores they are
/// passed over where a clause has to match.
spec fn same_should(
    scored: Result<Option<ScoreView>, ErrorView>,
    plain: Result<Option<ScoreView>, ErrorView>,
    has_must: bool,
    started: bool,
) -> bool {
    &&& scored matches Ok(scored) ==> (plain matches Ok(plain) && (started ==> scored is Some
        && plain is Some) && (!has_must ==> (scored is Some <==> plain is Some)))
}

proof fn clauses_match_unscored(
    clauses: Seq<(Occur, AnyQuery)>,
    n: nat,
    context: ContextView,
    document: DocumentView,
)
    requires
        n <= clauses.len(),
        context.statistics is Some,
        any_query::clauses_error(clauses, n, context) is None,
    ensures
        clauses_same(clauses, n, context, document),
    decreases clauses, n,
{
    let plain = unscored(context);
    if n > 0 {
        let m = (n - 1) as nat;
        let (occur, query) = clauses[n - 1];
        clauses_match_unscored(clauses, m, context, document);
        assert(any_query::clause_context(Occur::MustNot, context) == plain);
        assert(any_query::clause_context(Occur::MustNot, plain) == plain);
        if occur != Occur::MustNot {
            scores_do_not_change_the_match(query, context, document);
        }
        assert forall|total: Option<ScoreView>, plain_total: Option<ScoreView>|
            #![trigger any_query::should_result(clauses, n, context, document, total),
                any_query::should_result(clauses, n, plain, document, plain_total)]
            (total is Some <==> plain_total is Some) implies same_should(
            any_query::should_result(clauses, n, context, document, total),
            any_query::should_result(clauses, n, plain, document, plain_total),
            any_query::has_must(clauses),
            total is Some,
        ) by {
            assert(same_should(
                any_query::should_result(clauses, m, context, document, total),
                any_query::should_result(clauses, m, plain, document, plain_total),
                any_query::has_must(clauses),
                total is Some,
            ));
        }
    }
}

/// Where a clause has to match and all of them do, there is a score.
proof fn must_gives_score(
    clauses: Seq<(Occur, AnyQuery)>,
    n: nat,
    context: ContextView,
    document: DocumentView,
    i: int,
)
    requires
        0 <= i < n <= clauses.len(),
        clauses[i].0 == Occur::Must,
    ensures
        any_query::must_result(clauses, n, context, document) matches Ok(Some(total))
            ==> total is Some,
    decreases n,
{
    if i < n - 1 {
        must_gives_score(clauses, (n - 1) as nat, context, document, i);
    }
}

proof fn boolean_matches_unscored(query: BooleanQuery, context: ContextView, document: DocumentView)
    requires
        context.statistics is Some,
        clauses_same(query.clauses@, query.clauses@.len(), context, document),
    ensures
        same_match(
            any_query::query_result(AnyQuery::Boolean(query), context, document),
            any_query::query_result(AnyQuery::Boolean(query), unscored(context), document),
        ),
{
    let clauses = query.clauses@;
    let n = clauses.len();
    let plain = unscored(context);
    let required = any_query::required_part(
        any_query::must_result(clauses, n, context, document),
        any_query::excluded(clauses, n, context, document),
    );
    let plain_required = any_query::required_part(
        any_query::must_result(clauses, n, plain, document),
        any_query::excluded(clauses, n, plain, document),
    );
    let total = any_query::total_of(required);
    let plain_total = any_query::total_of(plain_required);
    if any_query::has_must(clauses) {
        let i = choose|i: int|
            0 <= i < clauses.len() && (#[trigger] clauses[i]).0 == Occur::Must;
        must_gives_score(clauses, n, context, document, i);
        must_gives_score(clauses, n, plain, document, i);
    }
    if required is Ok {
        assert(total is Some <==> plain_total is Some);
        assert(same_should(
            any_query::should_result(clauses, n, context, document, total),
            any_query::should_result(clauses, n, plain, document, plain_total),
            any_query::has_must(clauses),
            total is Some,
        ));
    }
}

/// The same context with another accumulated boost.
pub open spec fn reboosted(context: ContextView, boost: Seq<u32>) -> ContextView {
    ContextView { boost, ..context }
}

/// Two results are the same but for the score of a match.
pub open spec fn same_but_score(
    first: Result<EvaluationView, ErrorView>,
    second: Result<EvaluationView, ErrorView>,
) -> bool {
    match (first, second) {
        (Ok(first), Ok(second)) => first is Match <==> second is Match,
        (Err(first), Err(second)) => first == second,
        _ => false,
    }
}

proof fn terms_match_reboosted(
    query: TermQueryView,
    context: ContextView,
    boost: Seq<u32>,
    document: DocumentView,
)
    ensures
        any_query::error_of(term_query::compiled(query, context)) == any_query::error_of(
            term_query::compiled(query, reboosted(context, boost)),
        ),
        term_query::compiled(query, context) is Ok ==> same_but_score(
            term_query::term_result(term_query::compiled(query, context)->Ok_0, document),
            term_query::term_result(
                term_query::compiled(query, reboosted(context, boost))->Ok_0,
                document,
            ),
        ),
{
}

proof fn phrases_match_reboosted(
    query: PhraseQueryView,
    context: ContextView,
    boost: Seq<u32>,
    document: DocumentView,
)
    ensures
        any_query::error_of(phrase_query::compiled(query, context)) == any_query::error_of(
            phrase_query::compiled(query, reboosted(context, boost)),
        ),
        phrase_query::compiled(query, context) is Ok ==> same_but_score(
            phrase_query::phrase_result(phrase_query::compiled(query, context)->Ok_0, document),
            phrase_query::phrase_result(
                phrase_query::compiled(query, reboosted(context, boost))->Ok_0,
                document,
            ),
        ),
{
}

proof fn phrase_prefixes_match_reboosted(
    query: PhrasePrefixQueryView,
    context: ContextView,
    boost: Seq<u32>,
    document: DocumentView,
)
    ensures
        any_query::error_of(phrase_prefix_query::compiled(query, context)) == any_query::error_of(
            phrase_prefix_query::compiled(query, reboosted(context, boost)),
        ),
        phrase_prefix_query::compiled(query, context) is Ok ==> same_but_score(
            phrase_prefix_evaluator::phrase_prefix_result(
                phrase_prefix_query::compiled(query, context)->Ok_0,
                document,
            ),
            phrase_prefix_evaluator::phrase_prefix_result(
                phrase_prefix_query::compiled(query, reboosted(context, boost))->Ok_0,
                document,
            ),
        ),
{
    let first = phrase_prefix_query::compiled(query, context)->Ok_0;
    let second = phrase_prefix_query::compiled(query, reboosted(context, boost))->Ok_0;
    if phrase_prefix_query::compiled(query, context) is Ok {
        assert(phrase_prefix_evaluator::expansions(first, document)
            == phrase_prefix_evaluator::expansions(second, document));
    }
}

proof fn fuzzy_terms_match_reboosted(
    query: FuzzyTermQueryView,
    context: ContextView,
    boost: Seq<u32>,
    document: DocumentView,
)
    ensures
        any_query::error_of(fuzzy_query::compiled(query, context)) == any_query::error_of(
            fuzzy_query::compiled(query, reboosted(context, boost)),
        ),
        fuzzy_query::compiled(query, context) is Ok ==> same_but_score(
            fuzzy_query::fuzzy_result(fuzzy_query::compiled(query, context)->Ok_0, document),
            fuzzy_query::fuzzy_result(
                fuzzy_query::compiled(query, reboosted(context, boost))->Ok_0,
                document,
            ),
        ),
{
    let first = fuzzy_query::compiled(query, context)->Ok_0;
    let second = fuzzy_query::compiled(query, reboosted(context, boost))->Ok_0;
    if fuzzy_query::compiled(query, context) is Ok {
        assert(fuzzy_query::matching_entry(first) =~= fuzzy_query::matching_entry(second));
    }
}

/// Boosts change scores only: not whether a query can be compiled, and not what it matches.
pub proof fn boosts_do_not_change_the_match(
    query: AnyQuery,
    context: ContextView,
    boost: Seq<u32>,
    document: DocumentView,
)
    ensures
        any_query::compilation_error(query, context) == any_query::compilation_error(
            query,
            reboosted(context, boost),
        ),
        any_query::compilation_error(query, context) is None ==> same_but_score(
            any_query::query_result(query, context, document),
            any_query::query_result(query, reboosted(context, boost), document),
        ),
    decreases query, 0nat,
{
    let other = reboosted(context, boost);
    match query {
        AnyQuery::Term(query) => {
            terms_match_reboosted(query@, context, boost, document);
        },
        AnyQuery::Phrase(query) => {
            phrases_match_reboosted(query@, context, boost, document);
        },
        AnyQuery::PhrasePrefix(query) => {
            phrase_prefixes_match_reboosted(query@, context, boost, document);
        },
        AnyQuery::Fuzzy(query) => {
            fuzzy_terms_match_reboosted(query@, context, boost, document);
        },
        AnyQuery::Boolean(query) => {
            clauses_match_reboosted(query.clauses@, query.clauses@.len(), context, boost, document);
            if any_query::clauses_error(query.clauses@, query.clauses@.len(), context) is None {
                boolean_matches_reboosted(query, context, boost, document);
            }
        },
        AnyQuery::Boost(query) => {
            let inner = ContextView { boost: context.boost.push(query.boost), ..context };
            boosts_do_not_change_the_match(
                *query.underlying,
                inner,
                boost.push(query.boost),
                document,
            );
            assert(reboosted(inner, boost.push(query.boost)) == (ContextView {
                boost: other.boost.push(query.boost),
                ..other
            }));
        },
        AnyQuery::ConstScore(query) => {
            boosts_do_not_change_the_match(*query.query, unscored(context), boost, document);
            assert(reboosted(unscored(context), boost) == unscored(other));
        },
        _ => {},
    }
}

/// What the clauses of each kind give with either boost.
spec fn clauses_same_but_score(
    clauses: Seq<(Occur, AnyQuery)>,
    n: nat,
    context: ContextView,
    boost: Seq<u32>,
    document: DocumentView,
) -> bool {
    let other = reboosted(context, boost);
    &&& same_part(
        any_query::must_result(clauses, n, context, document),
        any_query::must_result(clauses, n, other, document),
    )
    &&& any_query::excluded(clauses, n, context, document) == any_query::excluded(
        clauses,
        n,
        other,
        document,
    )
    &&& forall|total: Option<ScoreView>, other_total: Option<ScoreView>|
        #![trigger any_query::should_result(clauses, n, context, document, total),
            any_query::should_result(clauses, n, other, document, other_total)]
        (total is Some <==> other_total is Some) ==> same_total(
            any_query::should_result(clauses, n, context, document, total),
            any_query::should_result(clauses, n, other, document, other_total),
        )
}

/// Two results for the clauses that have to match are the same but for scores.
spec fn same_part(
    first: Result<Option<Option<ScoreView>>, ErrorView>,
    second: Result<Option<Option<ScoreView>>, ErrorView>,
) -> bool {
    match (first, second) {
        (Ok(Some(first)), Ok(Some(second))) => first is Some <==> second is Some,
        (Ok(None), Ok(None)) => true,
        (Err(first), Err(second)) => first == second,
        _ => false,
    }
}

/// Two results for the clauses that may match are the same but for scores.
spec fn same_total(
    first: Result<Option<ScoreView>, ErrorView>,
    second: Result<Option<ScoreView>, ErrorView>,
) -> bool {
    match (first, second) {
        (Ok(first), Ok(second)) => first is Some <==> second is Some,
        (Err(first), Err(second)) => first == second,
        _ => false,
    }
}

proof fn clauses_match_reboosted(
    clauses: Seq<(Occur, AnyQuery)>,
    n: nat,
    context: ContextView,
    boost: Seq<u32>,
    document: DocumentView,
)
    requires
        n <= clauses.len(),
    ensures
        any_query::clauses_error(clauses, n, context) == any_query::clauses_error(
            clauses,
            n,
            reboosted(context, boost),
        ),
        any_query::clauses_error(clauses, n, context) is None ==> clauses_same_but_score(
            clauses,
            n,
            context,
            boost,
            document,
        ),
    decreases clauses, n,
{
    if n > 0 {
        let m = (n - 1) as nat;
        let other = reboosted(context, boost);
        let (occur, query) = clauses[n - 1];
        let clause_context = any_query::clause_context(occur, context);
        assert(any_query::clause_context(occur, other) == reboosted(clause_context, boost));
        clauses_match_reboosted(clauses, m, context, boost, document);
        boosts_do_not_change_the_match(query, clause_context, boost, document);
        if any_query::clauses_error(clauses, n, context) is None {
            assert forall|total: Option<ScoreView>, other_total: Option<ScoreView>|
                #![trigger any_query::should_result(clauses, n, context, document, total),
                    any_query::should_result(clauses, n, other, document, other_total)]
                (total is Some <==> other_total is Some) implies same_total(
                any_query::should_result(clauses, n, context, document, total),
                any_query::should_result(clauses, n, other, document, other_total),
            ) by {
                assert(same_total(
                    any_query::should_result(clauses, m, context, document, total),
                    any_query::should_result(clauses, m, other, document, other_total),
                ));
            }
        }
    }
}

proof fn boolean_matches_reboosted(
    query: BooleanQuery,
    context: ContextView,
    boost: Seq<u32>,
    document: DocumentView,
)
    requires
        clauses_same_but_score(query.clauses@, query.clauses@.len(), context, boost, document),
    ensures
        same_but_score(
            any_query::query_result(AnyQuery::Boolean(query), context, document),
            any_query::query_result(
                AnyQuery::Boolean(query),
                reboosted(context, boost),
                document,
            ),
        ),
{
    let clauses = query.clauses@;
    let n = clauses.len();
    let other = reboosted(context, boost);
    let total = any_query::total_of(
        any_query::required_part(
            any_query::must_result(clauses, n, context, document),
            any_query::excluded(clauses, n, context, document),
        ),
    );
    let other_total = any_query::total_of(
        any_query::required_part(
            any_query::must_result(clauses, n, other, document),
            any_query::excluded(clauses, n, other, document),
        ),
    );
    assert(same_total(
        any_query::should_result(clauses, n, context, document, total),
        any_query::should_result(clauses, n, other, document, other_total),
    ));
}

/// A boolean query without clauses that may or have to match does not match, whatever the others
/// exclude.
pub proof fn exclusions_alone_match_nothing(
    query: BooleanQuery,
    context: ContextView,
    document: DocumentView,
)
    requires
        forall|i: int|
            0 <= i < query.clauses@.len() ==> (#[trigger] query.clauses@[i]).0 == Occur::MustNot,
    ensures
        any_query::query_result(AnyQuery::Boolean(query), context, document) matches Ok(evaluation)
            ==> evaluation is NoMatch,
        query.clauses@.len() == 0 ==> any_query::query_result(
            AnyQuery::Boolean(query),
            context,
            document,
        ) == Ok::<EvaluationView, ErrorView>(EvaluationView::NoMatch),
{
    let n = query.clauses@.len();
    exclusions_give_no_score(query.clauses@, n, context, document);
    if n == 0 {
        assert(any_query::excluded(query.clauses@, n, context, document) == Ok::<bool, ErrorView>(
            false,
        ));
    }
}

proof fn exclusions_give_no_score(
    clauses: Seq<(Occur, AnyQuery)>,
    n: nat,
    context: ContextView,
    document: DocumentView,
)
    requires
        n <= clauses.len(),
        forall|i: int| 0 <= i < clauses.len() ==> (#[trigger] clauses[i]).0 == Occur::MustNot,
    ensures
        any_query::must_result(clauses, n, context, document) == Ok::<
            Option<Option<ScoreView>>,
            ErrorView,
        >(Some(None)),
        any_query::should_result(clauses, n, context, document, None) == Ok::<
            Option<ScoreView>,
            ErrorView,
        >(None),
    decreases n,
{
    if n > 0 {
        assert(clauses[n - 1].0 == Occur::MustNot);
        exclusions_give_no_score(clauses, (n - 1) as nat, context, document);
    }
}

/// Two lists of clauses differ only in what may match.
pub open spec fn differ_in_options(
    left: Seq<(Occur, AnyQuery)>,
    right: Seq<(Occur, AnyQuery)>,
) -> bool {
    &&& left.len() == right.len()
    &&& forall|i: int|
        0 <= i < left.len() ==> (#[trigger] left[i]).0 == (#[trigger] right[i]).0 && (left[i].0
            != Occur::Should ==> left[i] == right[i])
}

/// Where scores are not computed and a clause has to match, the clauses that may match do not
/// matter: not to whether the query can be compiled, not to the fields it requires, and not to
/// what it answers.
pub proof fn options_beside_requirements_do_not_matter(
    left: BooleanQuery,
    right: BooleanQuery,
    context: ContextView,
    document: DocumentView,
)
    requires
        context.statistics is None,
        any_query::has_must(left.clauses@),
        differ_in_options(left.clauses@, right.clauses@),
    ensures
        any_query::compilation_error(AnyQuery::Boolean(left), context)
            == any_query::compilation_error(AnyQuery::Boolean(right), context),
        any_query::query_fields(AnyQuery::Boolean(left), context) == any_query::query_fields(
            AnyQuery::Boolean(right),
            context,
        ),
        any_query::query_result(AnyQuery::Boolean(left), context, document)
            == any_query::query_result(AnyQuery::Boolean(right), context, document),
{
    let i = choose|i: int|
        0 <= i < left.clauses@.len() && (#[trigger] left.clauses@[i]).0 == Occur::Must;
    assert(right.clauses@[i].0 == Occur::Must);
    let n = left.clauses@.len();
    options_are_passed_over(left.clauses@, right.clauses@, n, context, document);
    let required = any_query::required_part(
        any_query::must_result(left.clauses@, n, context, document),
        any_query::excluded(left.clauses@, n, context, document),
    );
    let total = any_query::total_of(required);
    assert(any_query::should_result(left.clauses@, n, context, document, total)
        == any_query::should_result(right.clauses@, n, context, document, total));
}

proof fn options_are_passed_over(
    left: Seq<(Occur, AnyQuery)>,
    right: Seq<(Occur, AnyQuery)>,
    n: nat,
    context: ContextView,
    document: DocumentView,
)
    requires
        n <= left.len(),
        context.statistics is None,
        any_query::has_must(left),
        any_query::has_must(right),
        differ_in_options(left, right),
    ensures
        any_query::clauses_error(left, n, context) == any_query::clauses_error(right, n, context),
        any_query::clause_fields(left, n, context) == any_query::clause_fields(right, n, context),
        any_query::must_result(left, n, context, document) == any_query::must_result(
            right,
            n,
            context,
            document,
        ),
        any_query::excluded(left, n, context, document) == any_query::excluded(
            right,
            n,
            context,
            document,
        ),
        forall|total: Option<ScoreView>| #[trigger]
            any_query::should_result(left, n, context, document, total)
                == any_query::should_result(right, n, context, document, total),
    decreases n,
{
    if n > 0 {
        let m = (n - 1) as nat;
        assert(left[n - 1].0 == right[n - 1].0);
        options_are_passed_over(left, right, m, context, document);
        assert forall|total: Option<ScoreView>| #[trigger]
            any_query::should_result(left, n, context, document, total)
                == any_query::should_result(right, n, context, document, total) by {
            assert(any_query::should_result(left, m, context, document, total)
                == any_query::should_result(right, m, context, document, total));
        }
    }
}

/// A boolean query can be compiled exactly where each of its clauses that is not passed over can.
pub proof fn clauses_have_to_be_supported(query: BooleanQuery, context: ContextView)
    ensures
        any_query::compilation_error(AnyQuery::Boolean(query), context) is None <==> forall|i: int|
            0 <= i < query.clauses@.len() && !any_query::is_skipped(
                query.clauses@,
                (#[trigger] query.clauses@[i]).0,
                context,
            ) ==> any_query::compilation_error(
                query.clauses@[i].1,
                any_query::clause_context(query.clauses@[i].0, context),
            ) is None,
{
    first_clauses_have_to_be_supported(query.clauses@, query.clauses@.len(), context);
}

proof fn first_clauses_have_to_be_supported(
    clauses: Seq<(Occur, AnyQuery)>,
    n: nat,
    context: ContextView,
)
    requires
        n <= clauses.len(),
    ensures
        any_query::clauses_error(clauses, n, context) is None <==> forall|i: int|
            0 <= i < n && !any_query::is_skipped(clauses, (#[trigger] clauses[i]).0, context)
                ==> any_query::compilation_error(
                clauses[i].1,
                any_query::clause_context(clauses[i].0, context),
            ) is None,
    decreases n,
{
    if n > 0 {
        let m = (n - 1) as nat;
        first_clauses_have_to_be_supported(clauses, m, context);
        let last = clauses[n - 1];
        assert(any_query::clauses_error(clauses, n, context) is None <==> (
        any_query::clauses_error(clauses, m, context) is None && (any_query::is_skipped(
            clauses,
            last.0,
            context,
        ) || any_query::compilation_error(
            last.1,
            any_query::clause_context(last.0, context),
        ) is None)));
        if any_query::clauses_error(clauses, n, context) is None {
            assert forall|i: int|
                0 <= i < n && !any_query::is_skipped(
                    clauses,
                    (#[trigger] clauses[i]).0,
                    context,
                ) implies any_query::compilation_error(
                clauses[i].1,
                any_query::clause_context(clauses[i].0, context),
            ) is None by {
                if i == n - 1 {
                    assert(clauses[i] == last);
                }
            }
        }
    }
}

} // verus!
