//! Queries made of other queries.

use vstd::prelude::*;
use crate::error;
use crate::error::{ErrorView, TantivyError};
use crate::fields;
use crate::fuzzy_query;
use crate::fuzzy_query::{FuzzySingleDocumentEvaluator, FuzzyTermQuery};
use crate::phrase_prefix_evaluator;
use crate::phrase_prefix_evaluator::PhrasePrefixSingleDocumentEvaluator;
use crate::phrase_prefix_query;
use crate::phrase_prefix_query::PhrasePrefixQuery;
use crate::phrase_query;
use crate::phrase_query::{PhraseQuery, PhraseSingleDocumentEvaluator};
use crate::query::Query;
use crate::schema::Field;
use crate::score;
use crate::score::{Boost, DocumentEvaluation, EvaluationView, Score, ScoreView};
use crate::simple_queries::{AllQuery, ConstantEvaluator, EmptyQuery, RegexQuery, TermSetQuery};
use crate::single_document;
use crate::single_document::{ContextView, DocumentView, SingleDocument};
use crate::single_document::{SingleDocumentEvaluationContext, SingleDocumentEvaluator};
use crate::statistics::Bm25StatisticsProvider;
use crate::term_query;
use crate::term_query::{TermQuery, TermSingleDocumentEvaluator};
use crate::text;

verus! {

/// What a clause of a boolean query asks of a document.
#[derive(Clone, Copy, Debug, PartialEq, Eq, Structural)]
pub enum Occur {
    /// The clause may match. A match adds to the score.
    Should,
    /// The clause has to match.
    Must,
    /// The clause must not match.
    MustNot,
}

/// A query of any kind.
pub enum AnyQuery {
    /// A query for all documents.
    All(AllQuery),
    /// A query for no documents.
    Empty(EmptyQuery),
    /// A query for a term.
    Term(TermQuery),
    /// A query for a phrase.
    Phrase(PhraseQuery),
    /// A query for a phrase with a prefix.
    PhrasePrefix(PhrasePrefixQuery),
    /// A query for the terms near a given one.
    Fuzzy(FuzzyTermQuery),
    /// A query for several terms.
    TermSet(TermSetQuery),
    /// A query for terms with a pattern.
    Regex(RegexQuery),
    /// A combination of queries.
    Boolean(BooleanQuery),
    /// A query whose scores are multiplied.
    Boost(BoostQuery),
    /// A query with a constant score.
    ConstScore(ConstScoreQuery),
}

/// A combination of queries, each of them with what it asks of a document.
pub struct BooleanQuery {
    /// The clauses.
    pub clauses: Vec<(Occur, AnyQuery)>,
}

/// A query whose scores are multiplied by a factor.
pub struct BoostQuery {
    /// The query.
    pub underlying: Box<AnyQuery>,
    /// The factor, the bit pattern of a single precision number.
    pub boost: u32,
}

/// A query with a constant score.
pub struct ConstScoreQuery {
    /// The query.
    pub query: Box<AnyQuery>,
    /// The score, the bit pattern of a single precision number.
    pub score: u32,
}

/// The error of a result.
pub open spec fn error_of<T>(result: Result<T, ErrorView>) -> Option<ErrorView> {
    match result {
        Ok(_) => None,
        Err(error) => Some(error),
    }
}

/// How a kind of clause is written in the path of a query.
pub open spec fn occur_name(occur: Occur) -> Seq<char> {
    match occur {
        Occur::Should => "Should"@,
        Occur::Must => "Must"@,
        Occur::MustNot => "MustNot"@,
    }
}

/// How a clause is written in the path of a query.
pub open spec fn clause_path(occur: Occur, index: nat) -> Seq<char> {
    "BooleanQuery."@ + occur_name(occur) + "["@ + text::decimal(index) + "]"@
}

/// The context of a clause: scores are of no use where it must not match.
pub open spec fn clause_context(occur: Occur, context: ContextView) -> ContextView {
    if occur == Occur::MustNot {
        ContextView { statistics: None, ..context }
    } else {
        context
    }
}

/// One of the clauses has to match.
pub open spec fn has_must(clauses: Seq<(Occur, AnyQuery)>) -> bool {
    exists|i: int| 0 <= i < clauses.len() && (#[trigger] clauses[i]).0 == Occur::Must
}

/// A clause cannot change the result: it may match, others have to, and scores are not computed.
pub open spec fn is_skipped(
    clauses: Seq<(Occur, AnyQuery)>,
    occur: Occur,
    context: ContextView,
) -> bool {
    occur == Occur::Should && context.statistics is None && has_must(clauses)
}

/// The error of compiling a query, where there is one.
pub open spec fn compilation_error(query: AnyQuery, context: ContextView) -> Option<ErrorView>
    decreases query, 0nat,
{
    match query {
        AnyQuery::All(_) => None,
        AnyQuery::Empty(_) => None,
        AnyQuery::Term(query) => error_of(term_query::compiled(query@, context)),
        AnyQuery::Phrase(query) => error_of(phrase_query::compiled(query@, context)),
        AnyQuery::PhrasePrefix(query) => error_of(phrase_prefix_query::compiled(query@, context)),
        AnyQuery::Fuzzy(query) => error_of(fuzzy_query::compiled(query@, context)),
        AnyQuery::TermSet(query) => Some(
            ErrorView::UnsupportedQueryForSingleDocumentEvaluation(query.name()),
        ),
        AnyQuery::Regex(query) => Some(
            ErrorView::UnsupportedQueryForSingleDocumentEvaluation(query.name()),
        ),
        AnyQuery::Boolean(query) => clauses_error(
            query.clauses@,
            query.clauses@.len(),
            context,
        ),
        AnyQuery::Boost(query) => match compilation_error(
            *query.underlying,
            ContextView { boost: context.boost.push(query.boost), ..context },
        ) {
            Some(error) => Some(single_document::under_path(error, "BoostQuery"@)),
            None => None,
        },
        AnyQuery::ConstScore(query) => match compilation_error(
            *query.query,
            ContextView { statistics: None, ..context },
        ) {
            Some(error) => Some(single_document::under_path(error, "ConstScoreQuery"@)),
            None => None,
        },
    }
}

/// The error of compiling the first `n` clauses of a boolean query.
pub open spec fn clauses_error(
    clauses: Seq<(Occur, AnyQuery)>,
    n: nat,
    context: ContextView,
) -> Option<ErrorView>
    decreases clauses, n,
{
    if n == 0 || n > clauses.len() {
        None
    } else {
        match clauses_error(clauses, (n - 1) as nat, context) {
            Some(error) => Some(error),
            None => {
                let (occur, query) = clauses[n - 1];
                if is_skipped(clauses, occur, context) {
                    None
                } else {
                    match compilation_error(query, clause_context(occur, context)) {
                        Some(error) => Some(
                            single_document::under_path(error, clause_path(occur, (n - 1) as nat)),
                        ),
                        None => None,
                    }
                }
            },
        }
    }
}

/// A score added to those so far.
pub open spec fn added(total: Option<ScoreView>, score: ScoreView) -> ScoreView {
    match total {
        None => score,
        Some(total) => ScoreView::Sum(Box::new(total), Box::new(score)),
    }
}

/// What a query answers for a document, where it can be compiled.
pub open spec fn query_result(
    query: AnyQuery,
    context: ContextView,
    document: DocumentView,
) -> Result<EvaluationView, ErrorView>
    decreases query, 0nat,
{
    match query {
        AnyQuery::All(_) => Ok(EvaluationView::Match(context.constant_score())),
        AnyQuery::Empty(_) => Ok(EvaluationView::NoMatch),
        AnyQuery::Term(query) => term_query::term_result(
            term_query::compiled(query@, context)->Ok_0,
            document,
        ),
        AnyQuery::Phrase(query) => phrase_query::phrase_result(
            phrase_query::compiled(query@, context)->Ok_0,
            document,
        ),
        AnyQuery::PhrasePrefix(query) => phrase_prefix_evaluator::phrase_prefix_result(
            phrase_prefix_query::compiled(query@, context)->Ok_0,
            document,
        ),
        AnyQuery::Fuzzy(query) => fuzzy_query::fuzzy_result(
            fuzzy_query::compiled(query@, context)->Ok_0,
            document,
        ),
        AnyQuery::TermSet(_) => Ok(EvaluationView::NoMatch),
        AnyQuery::Regex(_) => Ok(EvaluationView::NoMatch),
        AnyQuery::Boolean(query) => {
            let n = query.clauses@.len();
            let required = required_part(
                must_result(query.clauses@, n, context, document),
                excluded(query.clauses@, n, context, document),
            );
            combined(
                required,
                should_result(query.clauses@, n, context, document, total_of(required)),
                context.statistics is Some,
            )
        },
        AnyQuery::Boost(query) => query_result(
            *query.underlying,
            ContextView { boost: context.boost.push(query.boost), ..context },
            document,
        ),
        AnyQuery::ConstScore(query) => constant_result(
            query_result(*query.query, ContextView { statistics: None, ..context }, document),
            constant_score(query.score, context),
        ),
    }
}

/// The score of a query with a constant score.
pub open spec fn constant_score(score: u32, context: ContextView) -> ScoreView {
    if context.statistics is Some {
        ScoreView::Product(context.boost.push(score))
    } else {
        score::unit_score()
    }
}

/// A result with another score.
pub open spec fn constant_result(
    result: Result<EvaluationView, ErrorView>,
    score: ScoreView,
) -> Result<EvaluationView, ErrorView> {
    match result {
        Ok(EvaluationView::Match(_)) => Ok(EvaluationView::Match(score)),
        other => other,
    }
}

/// The scores of the clauses that have to match, added up; `None` where one of them does not match.
/// The clauses are looked at in their order, up to the first one that does not match.
pub open spec fn must_result(
    clauses: Seq<(Occur, AnyQuery)>,
    n: nat,
    context: ContextView,
    document: DocumentView,
) -> Result<Option<Option<ScoreView>>, ErrorView>
    decreases clauses, n,
{
    if n == 0 || n > clauses.len() {
        Ok(Some(None))
    } else {
        let before = must_result(clauses, (n - 1) as nat, context, document);
        let (occur, query) = clauses[n - 1];
        if occur != Occur::Must {
            before
        } else {
            after_must(before, query_result(query, context, document))
        }
    }
}

/// The result of one more clause that has to match.
pub open spec fn after_must(
    before: Result<Option<Option<ScoreView>>, ErrorView>,
    result: Result<EvaluationView, ErrorView>,
) -> Result<Option<Option<ScoreView>>, ErrorView> {
    match before {
        Ok(Some(total)) => match result {
            Err(error) => Err(error),
            Ok(EvaluationView::NoMatch) => Ok(None),
            Ok(EvaluationView::Match(score)) => Ok(Some(Some(added(total, score)))),
        },
        other => other,
    }
}

/// A clause that must not match does. The clauses are looked at in their order, up to the first one
/// that matches.
pub open spec fn excluded(
    clauses: Seq<(Occur, AnyQuery)>,
    n: nat,
    context: ContextView,
    document: DocumentView,
) -> Result<bool, ErrorView>
    decreases clauses, n,
{
    if n == 0 || n > clauses.len() {
        Ok(false)
    } else {
        let before = excluded(clauses, (n - 1) as nat, context, document);
        let (occur, query) = clauses[n - 1];
        if occur != Occur::MustNot {
            before
        } else {
            after_must_not(
                before,
                query_result(query, clause_context(occur, context), document),
            )
        }
    }
}

/// The result of one more clause that must not match.
pub open spec fn after_must_not(
    before: Result<bool, ErrorView>,
    result: Result<EvaluationView, ErrorView>,
) -> Result<bool, ErrorView> {
    match before {
        Ok(false) => match result {
            Err(error) => Err(error),
            Ok(evaluation) => Ok(evaluation is Match),
        },
        other => other,
    }
}

/// The scores so far, with those of the clauses that may match and do. Where scores are not
/// computed, one match is enough.
pub open spec fn should_result(
    clauses: Seq<(Occur, AnyQuery)>,
    n: nat,
    context: ContextView,
    document: DocumentView,
    total: Option<ScoreView>,
) -> Result<Option<ScoreView>, ErrorView>
    decreases clauses, n,
{
    if n == 0 || n > clauses.len() {
        Ok(total)
    } else {
        let before = should_result(clauses, (n - 1) as nat, context, document, total);
        let (occur, query) = clauses[n - 1];
        if occur != Occur::Should || is_skipped(clauses, occur, context) {
            before
        } else {
            after_should(
                before,
                query_result(query, context, document),
                context.statistics is Some,
            )
        }
    }
}

/// The result of one more clause that may match.
pub open spec fn after_should(
    before: Result<Option<ScoreView>, ErrorView>,
    result: Result<EvaluationView, ErrorView>,
    scoring: bool,
) -> Result<Option<ScoreView>, ErrorView> {
    match before {
        Err(error) => Err(error),
        Ok(total) => if total is Some && !scoring {
            Ok(total)
        } else {
            match result {
                Err(error) => Err(error),
                Ok(EvaluationView::NoMatch) => Ok(total),
                Ok(EvaluationView::Match(score)) => Ok(Some(added(total, score))),
            }
        },
    }
}

/// The scores of the clauses that have to match; `None` where one of them does not, or one that
/// must not match does.
pub open spec fn required_part(
    must: Result<Option<Option<ScoreView>>, ErrorView>,
    excluded: Result<bool, ErrorView>,
) -> Result<Option<Option<ScoreView>>, ErrorView> {
    match must {
        Ok(Some(total)) => match excluded {
            Err(error) => Err(error),
            Ok(true) => Ok(None),
            Ok(false) => Ok(Some(total)),
        },
        other => other,
    }
}

/// The scores so far.
pub open spec fn total_of(required: Result<Option<Option<ScoreView>>, ErrorView>) -> Option<
    ScoreView,
> {
    match required {
        Ok(Some(total)) => total,
        _ => None,
    }
}

/// The result of a boolean query: those clauses match that have to, none that must not, and at
/// least one clause matches at all.
pub open spec fn combined(
    required: Result<Option<Option<ScoreView>>, ErrorView>,
    should: Result<Option<ScoreView>, ErrorView>,
    scoring: bool,
) -> Result<EvaluationView, ErrorView> {
    match required {
        Err(error) => Err(error),
        Ok(None) => Ok(EvaluationView::NoMatch),
        Ok(Some(_)) => match should {
            Err(error) => Err(error),
            Ok(None) => Ok(EvaluationView::NoMatch),
            Ok(Some(score)) => Ok(
                EvaluationView::Match(
                    if scoring {
                        score
                    } else {
                        score::unit_score()
                    },
                ),
            ),
        },
    }
}

/// The fields that a query reads, in ascending order.
pub open spec fn query_fields(query: AnyQuery, context: ContextView) -> Seq<Field>
    decreases query, 0nat,
{
    match query {
        AnyQuery::All(_) => Seq::empty(),
        AnyQuery::Empty(_) => Seq::empty(),
        AnyQuery::Term(query) => seq![query@.term.field],
        AnyQuery::Phrase(query) => seq![query@.field],
        AnyQuery::PhrasePrefix(query) => seq![query@.field],
        AnyQuery::Fuzzy(query) => seq![query@.term.field],
        AnyQuery::TermSet(_) => Seq::empty(),
        AnyQuery::Regex(_) => Seq::empty(),
        AnyQuery::Boolean(query) => fields::sorted_set(
            clause_fields(query.clauses@, query.clauses@.len(), context),
        ),
        AnyQuery::Boost(query) => query_fields(
            *query.underlying,
            ContextView { boost: context.boost.push(query.boost), ..context },
        ),
        AnyQuery::ConstScore(query) => query_fields(
            *query.query,
            ContextView { statistics: None, ..context },
        ),
    }
}

/// The fields that the first `n` clauses of a boolean query read.
pub open spec fn clause_fields(
    clauses: Seq<(Occur, AnyQuery)>,
    n: nat,
    context: ContextView,
) -> Seq<Field>
    decreases clauses, n,
{
    if n == 0 || n > clauses.len() {
        Seq::empty()
    } else {
        let before = clause_fields(clauses, (n - 1) as nat, context);
        let (occur, query) = clauses[n - 1];
        if is_skipped(clauses, occur, context) {
            before
        } else {
            before + query_fields(query, clause_context(occur, context))
        }
    }
}

/// A query of any kind compiled for the evaluation of single documents.
pub enum AnyEvaluator {
    /// The same answer for every document.
    Constant(ConstantEvaluator),
    /// A query for a term.
    Term(TermSingleDocumentEvaluator),
    /// A query for a phrase.
    Phrase(PhraseSingleDocumentEvaluator),
    /// A query for a phrase with a prefix.
    PhrasePrefix(PhrasePrefixSingleDocumentEvaluator),
    /// A query for the terms near a given one.
    Fuzzy(FuzzySingleDocumentEvaluator),
    /// A combination of queries.
    Boolean(BooleanEvaluator),
    /// A query with a constant score.
    ConstScore(ConstScoreEvaluator),
}

/// A [`BooleanQuery`] compiled for the evaluation of single documents.
pub struct BooleanEvaluator {
    must: Vec<AnyEvaluator>,
    must_not: Vec<AnyEvaluator>,
    should: Vec<AnyEvaluator>,
    scoring: bool,
    fields: Vec<Field>,
}

/// A [`ConstScoreQuery`] compiled for the evaluation of single documents.
pub struct ConstScoreEvaluator {
    evaluator: Box<AnyEvaluator>,
    score: Boost,
}

/// An evaluator is one that compiling a query can give.
pub closed spec fn is_compiled(evaluator: AnyEvaluator) -> bool
    decreases evaluator,
{
    match evaluator {
        AnyEvaluator::Constant(evaluator) => evaluator.well_formed(),
        AnyEvaluator::Term(evaluator) => evaluator.well_formed(),
        AnyEvaluator::Phrase(evaluator) => evaluator.well_formed(),
        AnyEvaluator::PhrasePrefix(evaluator) => evaluator.well_formed(),
        AnyEvaluator::Fuzzy(evaluator) => evaluator.well_formed(),
        AnyEvaluator::Boolean(evaluator) => {
            &&& forall|i: int|
                #![trigger evaluator.must@[i]]
                0 <= i < evaluator.must@.len() ==> is_compiled(evaluator.must@[i])
            &&& forall|i: int|
                #![trigger evaluator.must_not@[i]]
                0 <= i < evaluator.must_not@.len() ==> is_compiled(evaluator.must_not@[i])
            &&& forall|i: int|
                #![trigger evaluator.should@[i]]
                0 <= i < evaluator.should@.len() ==> is_compiled(evaluator.should@[i])
        },
        AnyEvaluator::ConstScore(evaluator) => is_compiled(*evaluator.evaluator),
    }
}

/// The fields that an evaluator reads.
pub closed spec fn evaluator_fields(evaluator: AnyEvaluator) -> Option<Seq<Field>>
    decreases evaluator,
{
    match evaluator {
        AnyEvaluator::Constant(evaluator) => evaluator.required(),
        AnyEvaluator::Term(evaluator) => evaluator.required(),
        AnyEvaluator::Phrase(evaluator) => evaluator.required(),
        AnyEvaluator::PhrasePrefix(evaluator) => evaluator.required(),
        AnyEvaluator::Fuzzy(evaluator) => evaluator.required(),
        AnyEvaluator::Boolean(evaluator) => Some(evaluator.fields@),
        AnyEvaluator::ConstScore(evaluator) => evaluator_fields(*evaluator.evaluator),
    }
}

/// What an evaluator answers for a document.
pub closed spec fn evaluator_result(evaluator: AnyEvaluator, document: DocumentView) -> Result<
    EvaluationView,
    ErrorView,
>
    decreases evaluator, 0nat,
{
    match evaluator {
        AnyEvaluator::Constant(evaluator) => evaluator.result(document),
        AnyEvaluator::Term(evaluator) => evaluator.result(document),
        AnyEvaluator::Phrase(evaluator) => evaluator.result(document),
        AnyEvaluator::PhrasePrefix(evaluator) => evaluator.result(document),
        AnyEvaluator::Fuzzy(evaluator) => evaluator.result(document),
        AnyEvaluator::Boolean(evaluator) => {
            let required = required_part(
                must_list(evaluator.must@, evaluator.must@.len(), document),
                must_not_list(evaluator.must_not@, evaluator.must_not@.len(), document),
            );
            combined(
                required,
                should_list(
                    evaluator.should@,
                    evaluator.should@.len(),
                    document,
                    total_of(required),
                    evaluator.scoring,
                ),
                evaluator.scoring,
            )
        },
        AnyEvaluator::ConstScore(evaluator) => constant_result(
            evaluator_result(*evaluator.evaluator, document),
            ScoreView::Product(evaluator.score@),
        ),
    }
}

/// What the first `n` evaluators that have to match answer.
closed spec fn must_list(list: Seq<AnyEvaluator>, n: nat, document: DocumentView) -> Result<
    Option<Option<ScoreView>>,
    ErrorView,
>
    decreases list, n,
{
    if n == 0 || n > list.len() {
        Ok(Some(None))
    } else {
        after_must(
            must_list(list, (n - 1) as nat, document),
            evaluator_result(list[n - 1], document),
        )
    }
}

/// What the first `n` evaluators that must not match answer.
closed spec fn must_not_list(list: Seq<AnyEvaluator>, n: nat, document: DocumentView) -> Result<
    bool,
    ErrorView,
>
    decreases list, n,
{
    if n == 0 || n > list.len() {
        Ok(false)
    } else {
        after_must_not(
            must_not_list(list, (n - 1) as nat, document),
            evaluator_result(list[n - 1], document),
        )
    }
}

/// What the first `n` evaluators that may match answer.
closed spec fn should_list(
    list: Seq<AnyEvaluator>,
    n: nat,
    document: DocumentView,
    total: Option<ScoreView>,
    scoring: bool,
) -> Result<Option<ScoreView>, ErrorView>
    decreases list, n,
{
    if n == 0 || n > list.len() {
        Ok(total)
    } else {
        after_should(
            should_list(list, (n - 1) as nat, document, total, scoring),
            evaluator_result(list[n - 1], document),
            scoring,
        )
    }
}

proof fn must_list_of_longer(
    list: Seq<AnyEvaluator>,
    last: AnyEvaluator,
    n: nat,
    document: DocumentView,
)
    requires
        n <= list.len(),
    ensures
        must_list(list.push(last), n, document) == must_list(list, n, document),
    decreases n,
{
    if n > 0 {
        must_list_of_longer(list, last, (n - 1) as nat, document);
    }
}

proof fn must_not_list_of_longer(
    list: Seq<AnyEvaluator>,
    last: AnyEvaluator,
    n: nat,
    document: DocumentView,
)
    requires
        n <= list.len(),
    ensures
        must_not_list(list.push(last), n, document) == must_not_list(list, n, document),
    decreases n,
{
    if n > 0 {
        must_not_list_of_longer(list, last, (n - 1) as nat, document);
    }
}

proof fn should_list_of_longer(
    list: Seq<AnyEvaluator>,
    last: AnyEvaluator,
    n: nat,
    document: DocumentView,
    total: Option<ScoreView>,
    scoring: bool,
)
    requires
        n <= list.len(),
    ensures
        should_list(list.push(last), n, document, total, scoring) == should_list(
            list,
            n,
            document,
            total,
            scoring,
        ),
    decreases n,
{
    if n > 0 {
        should_list_of_longer(list, last, (n - 1) as nat, document, total, scoring);
    }
}

/// What ends the first evaluators ends all of them.
proof fn must_list_ends(list: Seq<AnyEvaluator>, n: nat, document: DocumentView)
    requires
        n <= list.len(),
        !(must_list(list, n, document) matches Ok(Some(_))),
    ensures
        must_list(list, list.len(), document) == must_list(list, n, document),
    decreases list.len() - n,
{
    if n < list.len() {
        must_list_ends(list, n + 1, document);
    }
}

/// What ends the first evaluators ends all of them.
proof fn must_not_list_ends(list: Seq<AnyEvaluator>, n: nat, document: DocumentView)
    requires
        n <= list.len(),
        must_not_list(list, n, document) != Ok::<bool, ErrorView>(false),
    ensures
        must_not_list(list, list.len(), document) == must_not_list(list, n, document),
    decreases list.len() - n,
{
    if n < list.len() {
        must_not_list_ends(list, n + 1, document);
    }
}

/// What ends the first evaluators ends all of them.
proof fn should_list_ends(
    list: Seq<AnyEvaluator>,
    n: nat,
    document: DocumentView,
    total: Option<ScoreView>,
    scoring: bool,
)
    requires
        n <= list.len(),
        should_list(list, n, document, total, scoring) is Err,
    ensures
        should_list(list, list.len(), document, total, scoring) == should_list(
            list,
            n,
            document,
            total,
            scoring,
        ),
    decreases list.len() - n,
{
    if n < list.len() {
        should_list_ends(list, n + 1, document, total, scoring);
    }
}

/// An error among the first clauses is the error of all of them.
proof fn clauses_error_of_prefix(clauses: Seq<(Occur, AnyQuery)>, n: nat, context: ContextView)
    requires
        n <= clauses.len(),
        clauses_error(clauses, n, context) is Some,
    ensures
        clauses_error(clauses, clauses.len(), context) == clauses_error(clauses, n, context),
    decreases clauses.len() - n,
{
    if n < clauses.len() {
        clauses_error_of_prefix(clauses, n + 1, context);
    }
}

/// The evaluator answers what the query answers, and reads the fields that it reads.
pub open spec fn compiles_to(
    query: AnyQuery,
    context: ContextView,
    evaluator: AnyEvaluator,
) -> bool {
    &&& compilation_error(query, context) is None
    &&& is_compiled(evaluator)
    &&& evaluator_fields(evaluator) == Some(query_fields(query, context))
    &&& forall|document: DocumentView| #[trigger]
        evaluator_result(evaluator, document) == query_result(query, context, document)
}

/// Renders the path of a clause.
fn clause_path_text(occur: Occur, index: usize) -> (r: String)
    ensures
        r@ == clause_path(occur, index as nat),
{
    let mut s = "BooleanQuery.".to_owned();
    match occur {
        Occur::Should => s.append("Should"),
        Occur::Must => s.append("Must"),
        Occur::MustNot => s.append("MustNot"),
    }
    s.append("[");
    s.append(text::decimal_text(index as u64).as_str());
    s.append("]");
    assert(s@ =~= clause_path(occur, index as nat));
    s
}

/// Compiles a query for a term.
fn compile_term<S: Bm25StatisticsProvider + ?Sized>(
    query: &TermQuery,
    context: &SingleDocumentEvaluationContext<'_, S>,
) -> (r: Result<AnyEvaluator, TantivyError>)
    ensures
        match r {
            Ok(evaluator) => compiles_to(AnyQuery::Term(*query), context@, evaluator),
            Err(error) => compilation_error(AnyQuery::Term(*query), context@) == Some(error@),
        },
{
    match query.single_document_evaluator(context.clone()) {
        Ok(evaluator) => Ok(AnyEvaluator::Term(evaluator)),
        Err(error) => Err(error),
    }
}

/// Compiles a query for a phrase.
fn compile_phrase<S: Bm25StatisticsProvider + ?Sized>(
    query: &PhraseQuery,
    context: &SingleDocumentEvaluationContext<'_, S>,
) -> (r: Result<AnyEvaluator, TantivyError>)
    ensures
        match r {
            Ok(evaluator) => compiles_to(AnyQuery::Phrase(*query), context@, evaluator),
            Err(error) => compilation_error(AnyQuery::Phrase(*query), context@) == Some(error@),
        },
{
    match query.single_document_evaluator(context.clone()) {
        Ok(evaluator) => Ok(AnyEvaluator::Phrase(evaluator)),
        Err(error) => Err(error),
    }
}

/// Compiles a query for a phrase with a prefix.
fn compile_phrase_prefix<S: Bm25StatisticsProvider + ?Sized>(
    query: &PhrasePrefixQuery,
    context: &SingleDocumentEvaluationContext<'_, S>,
) -> (r: Result<AnyEvaluator, TantivyError>)
    ensures
        match r {
            Ok(evaluator) => compiles_to(AnyQuery::PhrasePrefix(*query), context@, evaluator),
            Err(error) => compilation_error(AnyQuery::PhrasePrefix(*query), context@) == Some(
                error@,
            ),
        },
{
    match query.single_document_evaluator(context.clone()) {
        Ok(evaluator) => Ok(AnyEvaluator::PhrasePrefix(evaluator)),
        Err(error) => Err(error),
    }
}

/// Compiles a query for the terms near a given one.
fn compile_fuzzy<S: Bm25StatisticsProvider + ?Sized>(
    query: &FuzzyTermQuery,
    context: &SingleDocumentEvaluationContext<'_, S>,
) -> (r: Result<AnyEvaluator, TantivyError>)
    ensures
        match r {
            Ok(evaluator) => compiles_to(AnyQuery::Fuzzy(*query), context@, evaluator),
            Err(error) => compilation_error(AnyQuery::Fuzzy(*query), context@) == Some(error@),
        },
{
    match query.single_document_evaluator(context.clone()) {
        Ok(evaluator) => Ok(AnyEvaluator::Fuzzy(evaluator)),
        Err(error) => Err(error),
    }
}

/// Compiles a query.
fn compile_query<S: Bm25StatisticsProvider + ?Sized>(
    query: &AnyQuery,
    context: &SingleDocumentEvaluationContext<'_, S>,
) -> (r: Result<AnyEvaluator, TantivyError>)
    ensures
        match r {
            Ok(evaluator) => compiles_to(*query, context@, evaluator),
            Err(error) => compilation_error(*query, context@) == Some(error@),
        },
    decreases *query,
{
    match query {
        AnyQuery::All(query) => match query.single_document_evaluator(context.clone()) {
            Ok(evaluator) => Ok(AnyEvaluator::Constant(evaluator)),
            Err(error) => Err(error),
        },
        AnyQuery::Empty(query) => match query.single_document_evaluator(context.clone()) {
            Ok(evaluator) => Ok(AnyEvaluator::Constant(evaluator)),
            Err(error) => Err(error),
        },
        AnyQuery::Term(query) => compile_term(query, context),
        AnyQuery::Phrase(query) => compile_phrase(query, context),
        AnyQuery::PhrasePrefix(query) => compile_phrase_prefix(query, context),
        AnyQuery::Fuzzy(query) => compile_fuzzy(query, context),
        AnyQuery::TermSet(query) => match query.single_document_evaluator(context.clone()) {
            Ok(evaluator) => Ok(AnyEvaluator::Constant(evaluator)),
            Err(error) => Err(error),
        },
        AnyQuery::Regex(query) => match query.single_document_evaluator(context.clone()) {
            Ok(evaluator) => Ok(AnyEvaluator::Constant(evaluator)),
            Err(error) => Err(error),
        },
        AnyQuery::Boolean(query) => match compile_boolean(query, context) {
            Ok(evaluator) => Ok(AnyEvaluator::Boolean(evaluator)),
            Err(error) => Err(error),
        },
        AnyQuery::Boost(query) => compile_boost(query, context),
        AnyQuery::ConstScore(query) => compile_const_score(query, context),
    }
}

/// Compiles a query whose scores are multiplied.
fn compile_boost<S: Bm25StatisticsProvider + ?Sized>(
    query: &BoostQuery,
    context: &SingleDocumentEvaluationContext<'_, S>,
) -> (r: Result<AnyEvaluator, TantivyError>)
    ensures
        match r {
            Ok(evaluator) => compiles_to(AnyQuery::Boost(*query), context@, evaluator),
            Err(error) => compilation_error(AnyQuery::Boost(*query), context@) == Some(error@),
        },
    decreases *query,
{
    let boosted = context.clone().with_boost(query.boost);
    match compile_query(&*query.underlying, &boosted) {
        Ok(evaluator) => Ok(evaluator),
        Err(error) => Err(single_document::with_unsupported_query_path(error, "BoostQuery")),
    }
}

/// Compiles a query with a constant score.
fn compile_const_score<S: Bm25StatisticsProvider + ?Sized>(
    query: &ConstScoreQuery,
    context: &SingleDocumentEvaluationContext<'_, S>,
) -> (r: Result<AnyEvaluator, TantivyError>)
    ensures
        match r {
            Ok(evaluator) => compiles_to(AnyQuery::ConstScore(*query), context@, evaluator),
            Err(error) => compilation_error(AnyQuery::ConstScore(*query), context@) == Some(
                error@,
            ),
        },
    decreases *query,
{
    let matching = context.clone().scoring_disabled();
    match compile_query(&*query.query, &matching) {
        Ok(evaluator) => {
            let score = if context.is_scoring_enabled() {
                context.boost().clone().times(query.score)
            } else {
                Boost::one()
            };
            let ghost inner = evaluator;
            let constant = AnyEvaluator::ConstScore(
                ConstScoreEvaluator { evaluator: Box::new(evaluator), score },
            );
            proof {
                assert forall|document: DocumentView| #[trigger]
                    evaluator_result(constant, document) == query_result(
                        AnyQuery::ConstScore(*query),
                        context@,
                        document,
                    ) by {
                    assert(evaluator_result(inner, document) == query_result(
                        *query.query,
                        matching@,
                        document,
                    ));
                }
            }
            Ok(constant)
        },
        Err(error) => Err(single_document::with_unsupported_query_path(error, "ConstScoreQuery")),
    }
}

/// Returns whether one of the clauses has to match.
fn any_must(clauses: &[(Occur, AnyQuery)]) -> (r: bool)
    ensures
        r == has_must(clauses@),
{
    let mut i: usize = 0;
    while i < clauses.len()
        invariant
            i <= clauses.len(),
            forall|j: int| 0 <= j < i ==> (#[trigger] clauses@[j]).0 != Occur::Must,
        decreases clauses.len() - i,
    {
        if clauses[i].0 == Occur::Must {
            assert(clauses@[i as int].0 == Occur::Must);
            return true;
        }
        i += 1;
    }
    false
}

/// Compiles a boolean query.
fn compile_boolean<S: Bm25StatisticsProvider + ?Sized>(
    query: &BooleanQuery,
    context: &SingleDocumentEvaluationContext<'_, S>,
) -> (r: Result<BooleanEvaluator, TantivyError>)
    ensures
        match r {
            Ok(evaluator) => compiles_to(
                AnyQuery::Boolean(*query),
                context@,
                AnyEvaluator::Boolean(evaluator),
            ),
            Err(error) => compilation_error(AnyQuery::Boolean(*query), context@) == Some(error@),
        },
    decreases *query,
{
    let ghost clauses = query.clauses@;
    let ghost view = context@;
    let scoring = context.is_scoring_enabled();
    let skip_should = !scoring && any_must(query.clauses.as_slice());
    let mut must: Vec<AnyEvaluator> = Vec::new();
    let mut must_not: Vec<AnyEvaluator> = Vec::new();
    let mut should: Vec<AnyEvaluator> = Vec::new();
    let mut read_fields: Vec<Field> = Vec::new();
    let mut i: usize = 0;
    while i < query.clauses.len()
        invariant
            i <= clauses.len(),
            clauses == query.clauses@,
            view == context@,
            scoring == (view.statistics is Some),
            skip_should == (view.statistics is None && has_must(clauses)),
            clauses_error(clauses, i as nat, view) is None,
            forall|j: int|
                #![trigger must@[j]]
                0 <= j < must@.len() ==> is_compiled(must@[j]),
            forall|j: int|
                #![trigger must_not@[j]]
                0 <= j < must_not@.len() ==> is_compiled(must_not@[j]),
            forall|j: int|
                #![trigger should@[j]]
                0 <= j < should@.len() ==> is_compiled(should@[j]),
            forall|document: DocumentView| #[trigger]
                must_list(must@, must@.len(), document) == must_result(
                    clauses,
                    i as nat,
                    view,
                    document,
                ),
            forall|document: DocumentView| #[trigger]
                must_not_list(must_not@, must_not@.len(), document) == excluded(
                    clauses,
                    i as nat,
                    view,
                    document,
                ),
            forall|document: DocumentView, total: Option<ScoreView>| #[trigger]
                should_list(should@, should@.len(), document, total, scoring) == should_result(
                    clauses,
                    i as nat,
                    view,
                    document,
                    total,
                ),
            read_fields@ == clause_fields(clauses, i as nat, view),
        decreases clauses.len() - i,
    {
        let ghost n = (i + 1) as nat;
        let occur: Occur = query.clauses[i].0;
        let ghost clause = clauses[i as int];
        if occur == Occur::Should && skip_should {
            assert(is_skipped(clauses, occur, view));
        } else {
            assert(!is_skipped(clauses, occur, view));
            let clause_context = if occur == Occur::MustNot {
                context.clone().scoring_disabled()
            } else {
                context.clone()
            };
            let ghost child_view = clause_context@;
            assert(child_view == self::clause_context(occur, view));
            let evaluator = match compile_query(&query.clauses[i].1, &clause_context) {
                Ok(evaluator) => evaluator,
                Err(error) => {
                    proof {
                        clauses_error_of_prefix(clauses, n, view);
                    }
                    let path = clause_path_text(occur, i);
                    return Err(
                        single_document::with_unsupported_query_path(error, path.as_str()),
                    );
                },
            };
            let ghost compiled = evaluator;
            append_required(&mut read_fields, &evaluator);
            match occur {
                Occur::Must => {
                    let ghost before = must@;
                    must.push(evaluator);
                    proof {
                        assert forall|document: DocumentView| #[trigger]
                            must_list(must@, must@.len(), document) == must_result(
                                clauses,
                                n,
                                view,
                                document,
                            ) by {
                            must_list_of_longer(before, compiled, before.len(), document);
                            assert(must_list(before, before.len(), document) == must_result(
                                clauses,
                                i as nat,
                                view,
                                document,
                            ));
                            assert(evaluator_result(compiled, document) == query_result(
                                clause.1,
                                child_view,
                                document,
                            ));
                        }
                    }
                },
                Occur::MustNot => {
                    let ghost before = must_not@;
                    must_not.push(evaluator);
                    proof {
                        assert forall|document: DocumentView| #[trigger]
                            must_not_list(must_not@, must_not@.len(), document) == excluded(
                                clauses,
                                n,
                                view,
                                document,
                            ) by {
                            must_not_list_of_longer(before, compiled, before.len(), document);
                            assert(must_not_list(before, before.len(), document) == excluded(
                                clauses,
                                i as nat,
                                view,
                                document,
                            ));
                            assert(evaluator_result(compiled, document) == query_result(
                                clause.1,
                                child_view,
                                document,
                            ));
                        }
                    }
                },
                Occur::Should => {
                    let ghost before = should@;
                    should.push(evaluator);
                    proof {
                        assert forall|document: DocumentView, total: Option<ScoreView>| #[trigger]
                            should_list(should@, should@.len(), document, total, scoring)
                                == should_result(clauses, n, view, document, total) by {
                            should_list_of_longer(
                                before,
                                compiled,
                                before.len(),
                                document,
                                total,
                                scoring,
                            );
                            assert(should_list(before, before.len(), document, total, scoring)
                                == should_result(clauses, i as nat, view, document, total));
                            assert(evaluator_result(compiled, document) == query_result(
                                clause.1,
                                child_view,
                                document,
                            ));
                        }
                    }
                },
            }
        }
        proof {
            if occur != Occur::Must {
                assert forall|document: DocumentView| #[trigger]
                    must_list(must@, must@.len(), document) == must_result(
                        clauses,
                        n,
                        view,
                        document,
                    ) by {
                    assert(must_result(clauses, n, view, document) == must_result(
                        clauses,
                        i as nat,
                        view,
                        document,
                    ));
                }
            }
            if occur != Occur::MustNot {
                assert forall|document: DocumentView| #[trigger]
                    must_not_list(must_not@, must_not@.len(), document) == excluded(
                        clauses,
                        n,
                        view,
                        document,
                    ) by {
                    assert(excluded(clauses, n, view, document) == excluded(
                        clauses,
                        i as nat,
                        view,
                        document,
                    ));
                }
            }
            if occur != Occur::Should || skip_should {
                assert forall|document: DocumentView, total: Option<ScoreView>| #[trigger]
                    should_list(should@, should@.len(), document, total, scoring) == should_result(
                        clauses,
                        n,
                        view,
                        document,
                        total,
                    ) by {
                    assert(should_result(clauses, n, view, document, total) == should_result(
                        clauses,
                        i as nat,
                        view,
                        document,
                        total,
                    ));
                }
            }
        }
        i += 1;
    }
    let evaluator = BooleanEvaluator {
        must,
        must_not,
        should,
        scoring,
        fields: fields::to_sorted_set(read_fields.as_slice()),
    };
    proof {
        assert forall|document: DocumentView| #[trigger]
            evaluator_result(AnyEvaluator::Boolean(evaluator), document) == query_result(
                AnyQuery::Boolean(*query),
                view,
                document,
            ) by {
            assert(must_list(must@, must@.len(), document) == must_result(
                clauses,
                clauses.len(),
                view,
                document,
            ));
            assert(must_not_list(must_not@, must_not@.len(), document) == excluded(
                clauses,
                clauses.len(),
                view,
                document,
            ));
            let total = total_of(
                required_part(
                    must_list(must@, must@.len(), document),
                    must_not_list(must_not@, must_not@.len(), document),
                ),
            );
            assert(should_list(should@, should@.len(), document, total, scoring) == should_result(
                clauses,
                clauses.len(),
                view,
                document,
                total,
            ));
        }
    }
    Ok(evaluator)
}

/// Appends the fields that an evaluator reads.
fn append_required(target: &mut Vec<Field>, evaluator: &AnyEvaluator)
    requires
        is_compiled(*evaluator),
        evaluator_fields(*evaluator) is Some,
    ensures
        final(target)@ == old(target)@ + evaluator_fields(*evaluator)->0,
{
    let ghost before = target@;
    if let Some(required) = evaluator.required_fields() {
        let mut i: usize = 0;
        assert(before + required@.take(0) =~= before);
        while i < required.len()
            invariant
                i <= required.len(),
                target@ == before + required@.take(i as int),
            decreases required.len() - i,
        {
            target.push(required[i]);
            assert(before + required@.take(i + 1) =~= (before + required@.take(i as int)).push(
                required@[i as int],
            ));
            i += 1;
        }
        assert(required@.take(i as int) =~= required@);
    }
}

/// Adds a score to those so far.
fn add_score(total: Option<Score>, score: Score) -> (r: Score)
    ensures
        r@ == added(
            match total {
                Some(total) => Some(total@),
                None => None,
            },
            score@,
        ),
{
    match total {
        Some(total) => Score::Sum(Box::new(total), Box::new(score)),
        None => score,
    }
}

/// Evaluates a document.
fn evaluate_any<D: SingleDocument + ?Sized>(evaluator: &AnyEvaluator, document: &D) -> (r: Result<
    DocumentEvaluation,
    TantivyError,
>)
    requires
        is_compiled(*evaluator),
    ensures
        single_document::evaluation(r) == evaluator_result(*evaluator, document.document()),
    decreases *evaluator,
{
    match evaluator {
        AnyEvaluator::Constant(evaluator) => evaluator.run(),
        AnyEvaluator::Term(evaluator) => evaluator.run(document),
        AnyEvaluator::Phrase(evaluator) => evaluator.run(document),
        AnyEvaluator::PhrasePrefix(evaluator) => evaluator.run(document),
        AnyEvaluator::Fuzzy(evaluator) => evaluator.run(document),
        AnyEvaluator::Boolean(evaluator) => evaluate_boolean(evaluator, document),
        AnyEvaluator::ConstScore(evaluator) => match evaluate_any(&*evaluator.evaluator, document) {
            Ok(DocumentEvaluation::Match(_)) => Ok(
                DocumentEvaluation::Match(Score::Product(evaluator.score.clone())),
            ),
            Ok(DocumentEvaluation::NoMatch) => Ok(DocumentEvaluation::NoMatch),
            Err(error) => Err(error),
        },
    }
}

/// The contents of an optional score.
spec fn total_view(total: Option<Score>) -> Option<ScoreView> {
    match total {
        Some(total) => Some(total@),
        None => None,
    }
}

/// Evaluates a document by a boolean query.
fn evaluate_boolean<D: SingleDocument + ?Sized>(evaluator: &BooleanEvaluator, document: &D) -> (r:
    Result<DocumentEvaluation, TantivyError>)
    requires
        is_compiled(AnyEvaluator::Boolean(*evaluator)),
    ensures
        single_document::evaluation(r) == evaluator_result(
            AnyEvaluator::Boolean(*evaluator),
            document.document(),
        ),
    decreases *evaluator,
{
    let ghost view = document.document();
    let ghost must = evaluator.must@;
    let ghost must_not = evaluator.must_not@;
    let ghost should = evaluator.should@;
    let mut total: Option<Score> = None;
    let mut i: usize = 0;
    while i < evaluator.must.len()
        invariant
            i <= must.len(),
            must == evaluator.must@,
            view == document.document(),
            is_compiled(AnyEvaluator::Boolean(*evaluator)),
            must_list(must, i as nat, view) == Ok::<Option<Option<ScoreView>>, ErrorView>(
                Some(total_view(total)),
            ),
        decreases must.len() - i,
    {
        assert(is_compiled(evaluator.must@[i as int]));
        match evaluate_any(&evaluator.must[i], document) {
            Ok(DocumentEvaluation::Match(score)) => {
                total = Some(add_score(total, score));
            },
            Ok(DocumentEvaluation::NoMatch) => {
                proof {
                    must_list_ends(must, (i + 1) as nat, view);
                }
                return Ok(DocumentEvaluation::NoMatch);
            },
            Err(error) => {
                proof {
                    must_list_ends(must, (i + 1) as nat, view);
                }
                return Err(error);
            },
        }
        i += 1;
    }
    let ghost required = total_view(total);
    i = 0;
    while i < evaluator.must_not.len()
        invariant
            i <= must_not.len(),
            must == evaluator.must@,
            must_not == evaluator.must_not@,
            view == document.document(),
            is_compiled(AnyEvaluator::Boolean(*evaluator)),
            must_list(must, must.len(), view) == Ok::<Option<Option<ScoreView>>, ErrorView>(
                Some(required),
            ),
            must_not_list(must_not, i as nat, view) == Ok::<bool, ErrorView>(false),
        decreases must_not.len() - i,
    {
        assert(is_compiled(evaluator.must_not@[i as int]));
        match evaluate_any(&evaluator.must_not[i], document) {
            Ok(DocumentEvaluation::Match(_)) => {
                proof {
                    must_not_list_ends(must_not, (i + 1) as nat, view);
                }
                return Ok(DocumentEvaluation::NoMatch);
            },
            Ok(DocumentEvaluation::NoMatch) => {},
            Err(error) => {
                proof {
                    must_not_list_ends(must_not, (i + 1) as nat, view);
                }
                return Err(error);
            },
        }
        i += 1;
    }
    i = 0;
    while i < evaluator.should.len()
        invariant
            i <= should.len(),
            must == evaluator.must@,
            must_not == evaluator.must_not@,
            should == evaluator.should@,
            view == document.document(),
            is_compiled(AnyEvaluator::Boolean(*evaluator)),
            must_list(must, must.len(), view) == Ok::<Option<Option<ScoreView>>, ErrorView>(
                Some(required),
            ),
            must_not_list(must_not, must_not.len(), view) == Ok::<bool, ErrorView>(false),
            should_list(should, i as nat, view, required, evaluator.scoring) == Ok::<
                Option<ScoreView>,
                ErrorView,
            >(total_view(total)),
        decreases should.len() - i,
    {
        assert(is_compiled(evaluator.should@[i as int]));
        if evaluator.scoring || total.is_none() {
            match evaluate_any(&evaluator.should[i], document) {
                Ok(DocumentEvaluation::Match(score)) => {
                    total = Some(add_score(total, score));
                },
                Ok(DocumentEvaluation::NoMatch) => {},
                Err(error) => {
                    proof {
                        should_list_ends(
                            should,
                            (i + 1) as nat,
                            view,
                            required,
                            evaluator.scoring,
                        );
                    }
                    return Err(error);
                },
            }
        }
        i += 1;
    }
    match total {
        Some(score) => Ok(
            DocumentEvaluation::Match(
                if evaluator.scoring {
                    score
                } else {
                    Score::one()
                },
            ),
        ),
        None => Ok(DocumentEvaluation::NoMatch),
    }
}

impl SingleDocumentEvaluator for AnyEvaluator {
    open spec fn well_formed(&self) -> bool {
        is_compiled(*self)
    }

    open spec fn required(&self) -> Option<Seq<Field>> {
        evaluator_fields(*self)
    }

    open spec fn result(&self, document: DocumentView) -> Result<EvaluationView, ErrorView> {
        evaluator_result(*self, document)
    }

    fn evaluate_impl<D: SingleDocument + ?Sized>(&mut self, document: &D) -> (r: Result<
        DocumentEvaluation,
        TantivyError,
    >) {
        evaluate_any(self, document)
    }

    fn required_fields(&self) -> (r: Option<&[Field]>) {
        required_of_any(self)
    }
}

/// Returns the fields that an evaluator reads.
fn required_of_any(evaluator: &AnyEvaluator) -> (r: Option<&[Field]>)
    requires
        is_compiled(*evaluator),
    ensures
        single_document::field_list(r) == evaluator_fields(*evaluator),
    decreases *evaluator,
{
    match evaluator {
        AnyEvaluator::Constant(evaluator) => evaluator.required_fields(),
        AnyEvaluator::Term(evaluator) => evaluator.required_fields(),
        AnyEvaluator::Phrase(evaluator) => evaluator.required_fields(),
        AnyEvaluator::PhrasePrefix(evaluator) => evaluator.required_fields(),
        AnyEvaluator::Fuzzy(evaluator) => evaluator.required_fields(),
        AnyEvaluator::Boolean(evaluator) => Some(evaluator.fields.as_slice()),
        AnyEvaluator::ConstScore(evaluator) => required_of_any(&*evaluator.evaluator),
    }
}

impl AnyQuery {
    /// Compiles the query for repeated evaluation of pre-tokenized external documents.
    pub fn single_document_evaluator<S: Bm25StatisticsProvider + ?Sized>(
        &self,
        context: SingleDocumentEvaluationContext<'_, S>,
    ) -> (r: Result<AnyEvaluator, TantivyError>)
        ensures
            match r {
                Ok(evaluator) => compiles_to(*self, context@, evaluator),
                Err(error) => compilation_error(*self, context@) == Some(error@),
            },
    {
        compile_query(self, &context)
    }
}

impl BooleanQuery {
    /// A combination of queries.
    pub fn new(clauses: Vec<(Occur, AnyQuery)>) -> (r: BooleanQuery)
        ensures
            r.clauses == clauses,
    {
        BooleanQuery { clauses }
    }

    /// Compiles the query for repeated evaluation of pre-tokenized external documents.
    ///
    /// A clause that may match is left out where others have to and scores are not computed: it
    /// cannot change the result.
    pub fn single_document_evaluator<S: Bm25StatisticsProvider + ?Sized>(
        &self,
        context: SingleDocumentEvaluationContext<'_, S>,
    ) -> (r: Result<AnyEvaluator, TantivyError>)
        ensures
            match r {
                Ok(evaluator) => compiles_to(AnyQuery::Boolean(*self), context@, evaluator),
                Err(error) => compilation_error(AnyQuery::Boolean(*self), context@) == Some(error@),
            },
    {
        match compile_boolean(self, &context) {
            Ok(evaluator) => Ok(AnyEvaluator::Boolean(evaluator)),
            Err(error) => Err(error),
        }
    }
}

impl BoostQuery {
    /// A query whose scores are multiplied by `boost`, the bit pattern of a single precision
    /// number.
    pub fn new(underlying: AnyQuery, boost: u32) -> (r: BoostQuery)
        ensures
            *r.underlying == underlying,
            r.boost == boost,
    {
        BoostQuery { underlying: Box::new(underlying), boost }
    }
}

impl ConstScoreQuery {
    /// A query with the score `score`, the bit pattern of a single precision number.
    pub fn new(query: AnyQuery, score: u32) -> (r: ConstScoreQuery)
        ensures
            *r.query == query,
            r.score == score,
    {
        ConstScoreQuery { query: Box::new(query), score }
    }
}

} // verus!
