//! What combined queries match, and how they are scored, told from what their parts answer.

use vstd::prelude::*;
use crate::any_query;
use crate::any_query::{AnyQuery, BooleanQuery, BoostQuery, ConstScoreQuery, Occur};
use crate::error::ErrorView;
use crate::score::{EvaluationView, ScoreView};
use crate::simple_queries::{AllQuery, EmptyQuery};
use crate::single_document::{ContextView, DocumentView};

verus! {

/// What a clause of a boolean query answers for a document. The score of one that must not match is
/// of no use, and is not computed.
pub open spec fn clause_result(
    clause: (Occur, AnyQuery),
    context: ContextView,
    document: DocumentView,
) -> Result<EvaluationView, ErrorView> {
    any_query::query_result(
        clause.1,
        if clause.0 == Occur::MustNot {
            ContextView { statistics: None, ..context }
        } else {
            context
        },
        document,
    )
}

/// A clause matches a document.
pub open spec fn clause_matches(
    clause: (Occur, AnyQuery),
    context: ContextView,
    document: DocumentView,
) -> bool {
    clause_result(clause, context, document) matches Ok(evaluation) && evaluation is Match
}

/// A clause does not match a document.
pub open spec fn clause_rejects(
    clause: (Occur, AnyQuery),
    context: ContextView,
    document: DocumentView,
) -> bool {
    clause_result(clause, context, document) matches Ok(evaluation) && evaluation is NoMatch
}

/// A clause is looked at: it has to match or must not, or its score counts, or no other has to
/// match.
pub open spec fn clause_counts(
    clauses: Seq<(Occur, AnyQuery)>,
    clause: (Occur, AnyQuery),
    context: ContextView,
) -> bool {
    clause.0 != Occur::Should || context.statistics is Some || forall|i: int|
        0 <= i < clauses.len() ==> (#[trigger] clauses[i]).0 != Occur::Must
}

/// The scores of the matching ones among the first `n` clauses of a kind, in their order.
pub open spec fn scores_of(
    clauses: Seq<(Occur, AnyQuery)>,
    n: nat,
    occur: Occur,
    context: ContextView,
    document: DocumentView,
) -> Seq<ScoreView>
    decreases n,
{
    if n == 0 || n > clauses.len() {
        Seq::empty()
    } else {
        let before = scores_of(clauses, (n - 1) as nat, occur, context, document);
        let clause = clauses[n - 1];
        if clause.0 == occur && clause_matches(clause, context, document) {
            before.push(clause_result(clause, context, document)->Ok_0->Match_0)
        } else {
            before
        }
    }
}

/// The scores added up, from the first to the last.
pub open spec fn sum_of(scores: Seq<ScoreView>) -> ScoreView
    decreases scores.len(),
{
    if scores.len() <= 1 {
        scores[0]
    } else {
        ScoreView::Sum(Box::new(sum_of(scores.drop_last())), Box::new(scores.last()))
    }
}

/// The scores added up, where there are any.
spec fn total_score(scores: Seq<ScoreView>) -> Option<ScoreView> {
    if scores.len() == 0 {
        None
    } else {
        Some(sum_of(scores))
    }
}

proof fn total_of_longer(scores: Seq<ScoreView>, score: ScoreView)
    ensures
        total_score(scores.push(score)) == Some(any_query::added(total_score(scores), score)),
{
    assert(scores.push(score).drop_last() =~= scores);
}

proof fn required_clauses(
    clauses: Seq<(Occur, AnyQuery)>,
    n: nat,
    context: ContextView,
    document: DocumentView,
)
    requires
        n <= clauses.len(),
    ensures
        match any_query::must_result(clauses, n, context, document) {
            Ok(Some(total)) => (forall|i: int|
                0 <= i < n && (#[trigger] clauses[i]).0 == Occur::Must ==> clause_matches(
                    clauses[i],
                    context,
                    document,
                )) && total == total_score(scores_of(clauses, n, Occur::Must, context, document))
                && (total is Some <==> exists|i: int|
                0 <= i < n && (#[trigger] clauses[i]).0 == Occur::Must),
            Ok(None) => exists|i: int|
                0 <= i < n && (#[trigger] clauses[i]).0 == Occur::Must && clause_rejects(
                    clauses[i],
                    context,
                    document,
                ),
            Err(error) => exists|i: int|
                0 <= i < n && (#[trigger] clauses[i]).0 == Occur::Must && clause_result(
                    clauses[i],
                    context,
                    document,
                ) == Err::<EvaluationView, ErrorView>(error),
        },
    decreases n,
{
    if n > 0 {
        let m = (n - 1) as nat;
        required_clauses(clauses, m, context, document);
        let before = any_query::must_result(clauses, m, context, document);
        let last = clauses[n - 1];
        if before matches Ok(Some(_)) {
            if last.0 == Occur::Must {
                let scores = scores_of(clauses, m, Occur::Must, context, document);
                if clause_matches(last, context, document) {
                    total_of_longer(
                        scores,
                        clause_result(last, context, document)->Ok_0->Match_0,
                    );
                }
                assert(clauses[n - 1].0 == Occur::Must);
            }
        } else if before matches Ok(None) {
            let i = choose|i: int|
                0 <= i < m && (#[trigger] clauses[i]).0 == Occur::Must && clause_rejects(
                    clauses[i],
                    context,
                    document,
                );
            assert(clauses[i].0 == Occur::Must);
        }
    }
}

proof fn excluded_clauses(
    clauses: Seq<(Occur, AnyQuery)>,
    n: nat,
    context: ContextView,
    document: DocumentView,
)
    requires
        n <= clauses.len(),
    ensures
        match any_query::excluded(clauses, n, context, document) {
            Ok(false) => forall|i: int|
                0 <= i < n && (#[trigger] clauses[i]).0 == Occur::MustNot ==> clause_rejects(
                    clauses[i],
                    context,
                    document,
                ),
            Ok(true) => exists|i: int|
                0 <= i < n && (#[trigger] clauses[i]).0 == Occur::MustNot && clause_matches(
                    clauses[i],
                    context,
                    document,
                ),
            Err(error) => exists|i: int|
                0 <= i < n && (#[trigger] clauses[i]).0 == Occur::MustNot && clause_result(
                    clauses[i],
                    context,
                    document,
                ) == Err::<EvaluationView, ErrorView>(error),
        },
    decreases n,
{
    if n > 0 {
        let m = (n - 1) as nat;
        excluded_clauses(clauses, m, context, document);
        let before = any_query::excluded(clauses, m, context, document);
        let last = clauses[n - 1];
        if before == Ok::<bool, ErrorView>(false) && last.0 == Occur::MustNot {
            assert(clauses[n - 1].0 == Occur::MustNot);
        }
        if before == Ok::<bool, ErrorView>(true) {
            let i = choose|i: int|
                0 <= i < m && (#[trigger] clauses[i]).0 == Occur::MustNot && clause_matches(
                    clauses[i],
                    context,
                    document,
                );
            assert(clauses[i].0 == Occur::MustNot);
        }
    }
}

proof fn optional_clauses(
    clauses: Seq<(Occur, AnyQuery)>,
    n: nat,
    context: ContextView,
    document: DocumentView,
    scores: Seq<ScoreView>,
)
    requires
        n <= clauses.len(),
    ensures
        match any_query::should_result(clauses, n, context, document, total_score(scores)) {
            Ok(total) => {
                &&& context.statistics is Some ==> total == total_score(
                    scores + scores_of(clauses, n, Occur::Should, context, document),
                )
                &&& total is Some <==> scores.len() > 0 || exists|i: int|
                    0 <= i < n && (#[trigger] clauses[i]).0 == Occur::Should && clause_counts(
                        clauses,
                        clauses[i],
                        context,
                    ) && clause_matches(clauses[i], context, document)
                &&& context.statistics is Some ==> forall|i: int|
                    0 <= i < n && (#[trigger] clauses[i]).0 == Occur::Should ==> clause_result(
                        clauses[i],
                        context,
                        document,
                    ) is Ok
            },
            Err(error) => exists|i: int|
                0 <= i < n && (#[trigger] clauses[i]).0 == Occur::Should && clause_counts(
                    clauses,
                    clauses[i],
                    context,
                ) && clause_result(clauses[i], context, document) == Err::<
                    EvaluationView,
                    ErrorView,
                >(error),
        },
    decreases n,
{
    let total = total_score(scores);
    if n == 0 {
        assert(scores + Seq::<ScoreView>::empty() =~= scores);
    } else {
        let m = (n - 1) as nat;
        optional_clauses(clauses, m, context, document, scores);
        let before = any_query::should_result(clauses, m, context, document, total);
        let last = clauses[n - 1];
        assert(clause_counts(clauses, last, context) <==> !any_query::is_skipped(
            clauses,
            last.0,
            context,
        ));
        if before is Ok {
            if last.0 == Occur::Should && clause_counts(clauses, last, context) {
                assert(clauses[n - 1].0 == Occur::Should);
                let so_far = scores_of(clauses, m, Occur::Should, context, document);
                if clause_matches(last, context, document) {
                    let score = clause_result(last, context, document)->Ok_0->Match_0;
                    total_of_longer(scores + so_far, score);
                    assert(scores + so_far.push(score) =~= (scores + so_far).push(score));
                }
            }
            if before->Ok_0 is Some && scores.len() == 0 {
                let i = choose|i: int|
                    0 <= i < m && (#[trigger] clauses[i]).0 == Occur::Should && clause_counts(
                        clauses,
                        clauses[i],
                        context,
                    ) && clause_matches(clauses[i], context, document);
                assert(clauses[i].0 == Occur::Should);
            }
        }
    }
}

/// One of the clauses of a kind matches a document.
pub open spec fn one_matches(
    clauses: Seq<(Occur, AnyQuery)>,
    occur: Occur,
    context: ContextView,
    document: DocumentView,
) -> bool {
    exists|i: int|
        0 <= i < clauses.len() && (#[trigger] clauses[i]).0 == occur && clause_matches(
            clauses[i],
            context,
            document,
        )
}

/// All the clauses that have to match a document do, and none that must not.
pub open spec fn demands_are_met(
    clauses: Seq<(Occur, AnyQuery)>,
    context: ContextView,
    document: DocumentView,
) -> bool {
    &&& forall|i: int|
        0 <= i < clauses.len() && (#[trigger] clauses[i]).0 == Occur::Must ==> clause_matches(
            clauses[i],
            context,
            document,
        )
    &&& forall|i: int|
        0 <= i < clauses.len() && (#[trigger] clauses[i]).0 == Occur::MustNot ==> clause_rejects(
            clauses[i],
            context,
            document,
        )
}

/// A boolean query matches a document only where every clause that has to match does, no clause
/// that must not match does, and at least one clause matches at all. Where the clauses that are
/// looked at are no errors, it matches exactly there. An error is that of such a clause.
pub proof fn boolean_query_matches_where_its_demands_are_met(
    query: BooleanQuery,
    context: ContextView,
    document: DocumentView,
)
    ensures
        ({
            let clauses = query.clauses@;
            let result = any_query::query_result(AnyQuery::Boolean(query), context, document);
            let asked_for = demands_are_met(clauses, context, document) && (one_matches(
                clauses,
                Occur::Must,
                context,
                document,
            ) || one_matches(clauses, Occur::Should, context, document));
            &&& (result matches Ok(evaluation) && evaluation is Match) ==> asked_for
            &&& (forall|i: int|
                0 <= i < clauses.len() && clause_counts(clauses, #[trigger] clauses[i], context)
                    ==> clause_result(clauses[i], context, document) is Ok) ==> (result matches Ok(
                evaluation,
            ) && (evaluation is Match <==> asked_for))
            &&& result matches Err(error) ==> exists|i: int|
                0 <= i < clauses.len() && clause_counts(clauses, #[trigger] clauses[i], context)
                    && clause_result(clauses[i], context, document) == Err::<
                    EvaluationView,
                    ErrorView,
                >(error)
        }),
{
    let clauses = query.clauses@;
    let n = clauses.len();
    let result = any_query::query_result(AnyQuery::Boolean(query), context, document);
    required_clauses(clauses, n, context, document);
    excluded_clauses(clauses, n, context, document);
    let scores = scores_of(clauses, n, Occur::Must, context, document);
    optional_clauses(clauses, n, context, document, scores);
    let must = any_query::must_result(clauses, n, context, document);
    let excluded = any_query::excluded(clauses, n, context, document);
    if must matches Ok(Some(_)) && excluded == Ok::<bool, ErrorView>(false) {
        let total = must->Ok_0->0;
        assert(total == total_score(scores));
        assert(demands_are_met(clauses, context, document));
        if total is Some {
            let i = choose|i: int| 0 <= i < n && (#[trigger] clauses[i]).0 == Occur::Must;
            assert(clause_matches(clauses[i], context, document));
            assert(one_matches(clauses, Occur::Must, context, document));
        } else {
            assert forall|i: int| 0 <= i < n implies clause_counts(
                clauses,
                #[trigger] clauses[i],
                context,
            ) by {
                assert forall|k: int| 0 <= k < n implies (#[trigger] clauses[k]).0
                    != Occur::Must by {}
            }
        }
    } else if must matches Ok(None) {
        let i = choose|i: int|
            0 <= i < n && (#[trigger] clauses[i]).0 == Occur::Must && clause_rejects(
                clauses[i],
                context,
                document,
            );
        assert(!clause_matches(clauses[i], context, document));
        assert(!demands_are_met(clauses, context, document));
    } else if must is Ok && excluded == Ok::<bool, ErrorView>(true) {
        let i = choose|i: int|
            0 <= i < n && (#[trigger] clauses[i]).0 == Occur::MustNot && clause_matches(
                clauses[i],
                context,
                document,
            );
        assert(!clause_rejects(clauses[i], context, document));
        assert(!demands_are_met(clauses, context, document));
    }
}

/// The score of a match is the sum of the scores of the clauses that have to match, followed by
/// those that may match and do. Where scores are not computed, it is one.
pub proof fn boolean_query_adds_the_scores_of_its_clauses(
    query: BooleanQuery,
    context: ContextView,
    document: DocumentView,
    score: ScoreView,
)
    requires
        any_query::query_result(AnyQuery::Boolean(query), context, document) == Ok::<
            EvaluationView,
            ErrorView,
        >(EvaluationView::Match(score)),
    ensures
        context.statistics is Some ==> score == sum_of(
            scores_of(query.clauses@, query.clauses@.len(), Occur::Must, context, document)
                + scores_of(query.clauses@, query.clauses@.len(), Occur::Should, context, document),
        ),
        context.statistics is None ==> score == ScoreView::Product(Seq::empty()),
{
    let clauses = query.clauses@;
    let n = clauses.len();
    required_clauses(clauses, n, context, document);
    let scores = scores_of(clauses, n, Occur::Must, context, document);
    optional_clauses(clauses, n, context, document, scores);
}

/// A query for all documents matches every one, with the accumulated boost as its score, and one
/// for none matches none.
pub proof fn all_and_empty_queries_answer_the_same_for_every_document(
    all: AllQuery,
    empty: EmptyQuery,
    context: ContextView,
    document: DocumentView,
)
    ensures
        any_query::query_result(AnyQuery::All(all), context, document) == Ok::<
            EvaluationView,
            ErrorView,
        >(
            EvaluationView::Match(
                ScoreView::Product(
                    if context.statistics is Some {
                        context.boost
                    } else {
                        Seq::empty()
                    },
                ),
            ),
        ),
        any_query::query_result(AnyQuery::Empty(empty), context, document) == Ok::<
            EvaluationView,
            ErrorView,
        >(EvaluationView::NoMatch),
        any_query::compilation_error(AnyQuery::All(all), context) is None,
        any_query::compilation_error(AnyQuery::Empty(empty), context) is None,
{
}

/// A boosted query answers what the query answers where the accumulated boost has one more factor.
/// A query with a constant score matches what the query matches without scores; its score is the
/// accumulated boost multiplied by the constant, or one where scores are not computed.
pub proof fn boosts_and_constant_scores_replace_the_score(
    boosted: BoostQuery,
    constant: ConstScoreQuery,
    context: ContextView,
    document: DocumentView,
)
    ensures
        any_query::query_result(AnyQuery::Boost(boosted), context, document)
            == any_query::query_result(
            *boosted.underlying,
            ContextView { boost: context.boost.push(boosted.boost), ..context },
            document,
        ),
        ({
            let inner = any_query::query_result(
                *constant.query,
                ContextView { statistics: None, ..context },
                document,
            );
            let outer = any_query::query_result(AnyQuery::ConstScore(constant), context, document);
            match inner {
                Ok(EvaluationView::Match(_)) => outer == Ok::<EvaluationView, ErrorView>(
                    EvaluationView::Match(
                        ScoreView::Product(
                            if context.statistics is Some {
                                context.boost.push(constant.score)
                            } else {
                                Seq::empty()
                            },
                        ),
                    ),
                ),
                other => outer == other,
            }
        }),
{
}

/// Of the clauses that have to match, the first one that does not is the one that decides: the query
/// does not match where that clause does not, and has its error where it is one. The clauses behind
/// it do not matter.
pub proof fn first_required_clause_that_does_not_match_decides(
    query: BooleanQuery,
    context: ContextView,
    document: DocumentView,
    n: int,
)
    requires
        0 <= n < query.clauses@.len(),
        query.clauses@[n].0 == Occur::Must,
        forall|i: int|
            0 <= i < n && (#[trigger] query.clauses@[i]).0 == Occur::Must ==> clause_matches(
                query.clauses@[i],
                context,
                document,
            ),
        !clause_matches(query.clauses@[n], context, document),
    ensures
        any_query::query_result(AnyQuery::Boolean(query), context, document) == clause_result(
            query.clauses@[n],
            context,
            document,
        ),
{
    let clauses = query.clauses@;
    matching_clauses_go_on(clauses, n as nat, context, document);
    required_end(clauses, (n + 1) as nat, context, document);
}

proof fn matching_clauses_go_on(
    clauses: Seq<(Occur, AnyQuery)>,
    n: nat,
    context: ContextView,
    document: DocumentView,
)
    requires
        n <= clauses.len(),
        forall|i: int|
            0 <= i < n && (#[trigger] clauses[i]).0 == Occur::Must ==> clause_matches(
                clauses[i],
                context,
                document,
            ),
    ensures
        any_query::must_result(clauses, n, context, document) matches Ok(Some(_)),
    decreases n,
{
    if n > 0 {
        matching_clauses_go_on(clauses, (n - 1) as nat, context, document);
        if clauses[n - 1].0 == Occur::Must {
            assert(clause_matches(clauses[n - 1], context, document));
        }
    }
}

proof fn required_end(
    clauses: Seq<(Occur, AnyQuery)>,
    n: nat,
    context: ContextView,
    document: DocumentView,
)
    requires
        n <= clauses.len(),
        !(any_query::must_result(clauses, n, context, document) matches Ok(Some(_))),
    ensures
        any_query::must_result(clauses, clauses.len(), context, document)
            == any_query::must_result(clauses, n, context, document),
    decreases clauses.len() - n,
{
    if n < clauses.len() {
        required_end(clauses, n + 1, context, document);
    }
}

/// Where all the clauses that have to match do, the first one of those that must not match and is
/// not without a match is the one that decides: the query does not match where that clause does, and
/// has its error where it is one.
pub proof fn first_excluded_clause_that_matches_decides(
    query: BooleanQuery,
    context: ContextView,
    document: DocumentView,
    n: int,
)
    requires
        0 <= n < query.clauses@.len(),
        query.clauses@[n].0 == Occur::MustNot,
        forall|i: int|
            0 <= i < query.clauses@.len() && (#[trigger] query.clauses@[i]).0 == Occur::Must
                ==> clause_matches(query.clauses@[i], context, document),
        forall|i: int|
            0 <= i < n && (#[trigger] query.clauses@[i]).0 == Occur::MustNot ==> clause_rejects(
                query.clauses@[i],
                context,
                document,
            ),
        !clause_rejects(query.clauses@[n], context, document),
    ensures
        any_query::query_result(AnyQuery::Boolean(query), context, document) == (
        match clause_result(query.clauses@[n], context, document) {
            Ok(_) => Ok(EvaluationView::NoMatch),
            Err(error) => Err(error),
        }),
{
    let clauses = query.clauses@;
    matching_clauses_go_on(clauses, clauses.len(), context, document);
    rejected_clauses_go_on(clauses, n as nat, context, document);
    excluded_end(clauses, (n + 1) as nat, context, document);
}

proof fn rejected_clauses_go_on(
    clauses: Seq<(Occur, AnyQuery)>,
    n: nat,
    context: ContextView,
    document: DocumentView,
)
    requires
        n <= clauses.len(),
        forall|i: int|
            0 <= i < n && (#[trigger] clauses[i]).0 == Occur::MustNot ==> clause_rejects(
                clauses[i],
                context,
                document,
            ),
    ensures
        any_query::excluded(clauses, n, context, document) == Ok::<bool, ErrorView>(false),
    decreases n,
{
    if n > 0 {
        rejected_clauses_go_on(clauses, (n - 1) as nat, context, document);
        if clauses[n - 1].0 == Occur::MustNot {
            assert(clause_rejects(clauses[n - 1], context, document));
        }
    }
}

proof fn excluded_end(
    clauses: Seq<(Occur, AnyQuery)>,
    n: nat,
    context: ContextView,
    document: DocumentView,
)
    requires
        n <= clauses.len(),
        any_query::excluded(clauses, n, context, document) != Ok::<bool, ErrorView>(false),
    ensures
        any_query::excluded(clauses, clauses.len(), context, document) == any_query::excluded(
            clauses,
            n,
            context,
            document,
        ),
    decreases clauses.len() - n,
{
    if n < clauses.len() {
        excluded_end(clauses, n + 1, context, document);
    }
}

/// Where scores are not computed and no clause has to match, the first of the clauses that may match
/// and is not without a match is the one that decides: the query matches where that clause does, and
/// has its error where it is one. Those behind it do not matter.
pub proof fn first_optional_clause_that_matches_decides(
    query: BooleanQuery,
    context: ContextView,
    document: DocumentView,
    n: int,
)
    requires
        context.statistics is None,
        0 <= n < query.clauses@.len(),
        query.clauses@[n].0 == Occur::Should,
        forall|i: int|
            0 <= i < query.clauses@.len() ==> (#[trigger] query.clauses@[i]).0 != Occur::Must,
        forall|i: int|
            0 <= i < query.clauses@.len() && (#[trigger] query.clauses@[i]).0 == Occur::MustNot
                ==> clause_rejects(query.clauses@[i], context, document),
        forall|i: int|
            0 <= i < n && (#[trigger] query.clauses@[i]).0 == Occur::Should ==> clause_rejects(
                query.clauses@[i],
                context,
                document,
            ),
        !clause_rejects(query.clauses@[n], context, document),
    ensures
        any_query::query_result(AnyQuery::Boolean(query), context, document) == (
        match clause_result(query.clauses@[n], context, document) {
            Ok(_) => Ok(EvaluationView::Match(ScoreView::Product(Seq::empty()))),
            Err(error) => Err(error),
        }),
{
    let clauses = query.clauses@;
    required_clauses(clauses, clauses.len(), context, document);
    matching_clauses_go_on(clauses, clauses.len(), context, document);
    rejected_clauses_go_on(clauses, clauses.len(), context, document);
    options_go_on(clauses, n as nat, context, document);
    options_end(clauses, (n + 1) as nat, context, document);
}

proof fn options_go_on(
    clauses: Seq<(Occur, AnyQuery)>,
    n: nat,
    context: ContextView,
    document: DocumentView,
)
    requires
        n <= clauses.len(),
        forall|i: int|
            0 <= i < n && (#[trigger] clauses[i]).0 == Occur::Should ==> clause_rejects(
                clauses[i],
                context,
                document,
            ),
    ensures
        any_query::should_result(clauses, n, context, document, None) == Ok::<
            Option<ScoreView>,
            ErrorView,
        >(None),
    decreases n,
{
    if n > 0 {
        options_go_on(clauses, (n - 1) as nat, context, document);
        if clauses[n - 1].0 == Occur::Should {
            assert(clause_rejects(clauses[n - 1], context, document));
        }
    }
}

proof fn options_end(
    clauses: Seq<(Occur, AnyQuery)>,
    n: nat,
    context: ContextView,
    document: DocumentView,
)
    requires
        context.statistics is None,
        n <= clauses.len(),
        any_query::should_result(clauses, n, context, document, None) != Ok::<
            Option<ScoreView>,
            ErrorView,
        >(None),
    ensures
        any_query::should_result(clauses, clauses.len(), context, document, None)
            == any_query::should_result(clauses, n, context, document, None),
    decreases clauses.len() - n,
{
    if n < clauses.len() {
        options_end(clauses, n + 1, context, document);
    }
}

} // verus!
