//! Which fields a query reads, which queries cannot be compiled, and what a query gives an index.

use vstd::prelude::*;
use crate::any_query;
use crate::any_query::{AnyQuery, BooleanQuery, BoostQuery, ConstScoreQuery, Occur};
use crate::boolean_laws;
use crate::bytes;
use crate::error::ErrorView;
use crate::fields;
use crate::fuzzy_query;
use crate::fuzzy_query::FuzzyTermQuery;
use crate::phrase;
use crate::phrase_prefix_evaluator;
use crate::phrase_prefix_query;
use crate::phrase_prefix_query::{PhrasePrefixQuery, PhrasePrefixQueryView};
use crate::phrase_prefix_query::PhrasePrefixQueryWeightView;
use crate::phrase_query;
use crate::phrase_query::PhraseQuery;
use crate::phrase_score_laws;
use crate::query::ScoringView;
use crate::schema::{Field, FieldEntryView, IndexRecordOption, Type};
use crate::simple_queries::{RegexQuery, TermSetQuery};
use crate::single_document;
use crate::single_document::{BoundView, ContextView};
use crate::statistics;
use crate::term;
use crate::term::TermView;
use crate::term_query;
use crate::term_query::TermQuery;
use crate::text;

verus! {

/// A query reads a field: one of its parts that count looks for a term of that field.
pub open spec fn reads(query: AnyQuery, context: ContextView, field: Field) -> bool
    decreases query, 0nat,
{
    match query {
        AnyQuery::Term(query) => query@.term.field == field,
        AnyQuery::Phrase(query) => query@.field == field,
        AnyQuery::PhrasePrefix(query) => query@.field == field,
        AnyQuery::Fuzzy(query) => query@.term.field == field,
        AnyQuery::Boolean(query) => clauses_read(
            query.clauses@,
            query.clauses@.len(),
            context,
            field,
        ),
        AnyQuery::Boost(query) => reads(*query.underlying, context, field),
        AnyQuery::ConstScore(query) => reads(
            *query.query,
            ContextView { statistics: None, ..context },
            field,
        ),
        _ => false,
    }
}

/// One of the first `n` clauses counts and reads a field.
pub open spec fn clauses_read(
    clauses: Seq<(Occur, AnyQuery)>,
    n: nat,
    context: ContextView,
    field: Field,
) -> bool
    decreases clauses, n,
{
    if n == 0 || n > clauses.len() {
        false
    } else {
        clauses_read(clauses, (n - 1) as nat, context, field) || boolean_laws::clause_counts(
            clauses,
            clauses[n - 1],
            context,
        ) && reads(
            clauses[n - 1].1,
            if clauses[n - 1].0 == Occur::MustNot {
                ContextView { statistics: None, ..context }
            } else {
                context
            },
            field,
        )
    }
}

proof fn skipped_clauses_do_not_count(
    clauses: Seq<(Occur, AnyQuery)>,
    clause: (Occur, AnyQuery),
    context: ContextView,
)
    ensures
        boolean_laws::clause_counts(clauses, clause, context) <==> !any_query::is_skipped(
            clauses,
            clause.0,
            context,
        ),
{
}

proof fn boost_does_not_change_what_is_read(
    query: AnyQuery,
    context: ContextView,
    boost: Seq<u32>,
    field: Field,
)
    ensures
        reads(query, ContextView { boost, ..context }, field) == reads(query, context, field),
    decreases query, 0nat,
{
    let other = ContextView { boost, ..context };
    match query {
        AnyQuery::Boolean(query) => {
            boost_does_not_change_what_clauses_read(
                query.clauses@,
                query.clauses@.len(),
                context,
                boost,
                field,
            );
        },
        AnyQuery::Boost(query) => {
            boost_does_not_change_what_is_read(*query.underlying, context, boost, field);
        },
        AnyQuery::ConstScore(query) => {
            let plain = ContextView { statistics: None, ..context };
            boost_does_not_change_what_is_read(*query.query, plain, boost, field);
            assert(ContextView { boost, ..plain } == ContextView { statistics: None, ..other });
        },
        _ => {},
    }
}

proof fn boost_does_not_change_what_clauses_read(
    clauses: Seq<(Occur, AnyQuery)>,
    n: nat,
    context: ContextView,
    boost: Seq<u32>,
    field: Field,
)
    requires
        n <= clauses.len(),
    ensures
        clauses_read(clauses, n, ContextView { boost, ..context }, field) == clauses_read(
            clauses,
            n,
            context,
            field,
        ),
    decreases clauses, n,
{
    if n > 0 {
        let other = ContextView { boost, ..context };
        let plain = ContextView { statistics: None, ..context };
        boost_does_not_change_what_clauses_read(clauses, (n - 1) as nat, context, boost, field);
        boost_does_not_change_what_is_read(clauses[n - 1].1, context, boost, field);
        boost_does_not_change_what_is_read(clauses[n - 1].1, plain, boost, field);
        assert(ContextView { boost, ..plain } == ContextView { statistics: None, ..other });
    }
}

/// The fields that a query requires are exactly those that it reads, each of them once, in ascending
/// order.
pub proof fn required_fields_are_those_that_are_read(
    query: AnyQuery,
    context: ContextView,
    field: Field,
)
    ensures
        any_query::query_fields(query, context).contains(field) <==> reads(query, context, field),
        fields::ascending(any_query::query_fields(query, context)),
    decreases query, 0nat,
{
    match query {
        AnyQuery::Term(query) => {
            assert(seq![query@.term.field][0] == query@.term.field);
        },
        AnyQuery::Phrase(query) => {
            assert(seq![query@.field][0] == query@.field);
        },
        AnyQuery::PhrasePrefix(query) => {
            assert(seq![query@.field][0] == query@.field);
        },
        AnyQuery::Fuzzy(query) => {
            assert(seq![query@.term.field][0] == query@.term.field);
        },
        AnyQuery::Boolean(query) => {
            let n = query.clauses@.len();
            clause_fields_are_those_that_are_read(query.clauses@, n, context, field);
            fields::sorted_set_is_a_set(any_query::clause_fields(query.clauses@, n, context));
        },
        AnyQuery::Boost(query) => {
            let boosted = ContextView { boost: context.boost.push(query.boost), ..context };
            required_fields_are_those_that_are_read(*query.underlying, boosted, field);
            boost_does_not_change_what_is_read(*query.underlying, context, boosted.boost, field);
        },
        AnyQuery::ConstScore(query) => {
            required_fields_are_those_that_are_read(
                *query.query,
                ContextView { statistics: None, ..context },
                field,
            );
        },
        _ => {},
    }
}

proof fn clause_fields_are_those_that_are_read(
    clauses: Seq<(Occur, AnyQuery)>,
    n: nat,
    context: ContextView,
    field: Field,
)
    requires
        n <= clauses.len(),
    ensures
        any_query::clause_fields(clauses, n, context).contains(field) <==> clauses_read(
            clauses,
            n,
            context,
            field,
        ),
    decreases clauses, n,
{
    if n > 0 {
        let m = (n - 1) as nat;
        let clause = clauses[n - 1];
        let before = any_query::clause_fields(clauses, m, context);
        let all = any_query::clause_fields(clauses, n, context);
        let own_context = any_query::clause_context(clause.0, context);
        let own = any_query::query_fields(clause.1, own_context);
        clause_fields_are_those_that_are_read(clauses, m, context, field);
        skipped_clauses_do_not_count(clauses, clause, context);
        if boolean_laws::clause_counts(clauses, clause, context) {
            required_fields_are_those_that_are_read(clause.1, own_context, field);
            if before.contains(field) {
                assert(all[before.index_of(field)] == field);
            }
            if own.contains(field) {
                assert(all[before.len() + own.index_of(field)] == field);
            }
            if all.contains(field) {
                let i = all.index_of(field);
                if i < before.len() {
                    assert(before[i] == field);
                } else {
                    assert(own[i - before.len()] == field);
                }
            }
        }
    }
}

/// An error that a part of a query gives to the whole: the name of an unsupported query gets the
/// way to it in front, and other errors stay as they are.
pub open spec fn reached_by(way: Seq<char>, error: ErrorView) -> ErrorView {
    match error {
        ErrorView::UnsupportedQueryForSingleDocumentEvaluation(name) =>
            ErrorView::UnsupportedQueryForSingleDocumentEvaluation(way + " -> "@ + name),
        other => other,
    }
}

/// The queries that need an index are not supported, and are named. A boosted query, and one with a
/// constant score, have the error of the query in them, with the way to it.
pub proof fn unsupported_queries_are_named(
    term_set: TermSetQuery,
    regex: RegexQuery,
    boosted: BoostQuery,
    constant: ConstScoreQuery,
    context: ContextView,
)
    ensures
        any_query::compilation_error(AnyQuery::TermSet(term_set), context) == Some(
            ErrorView::UnsupportedQueryForSingleDocumentEvaluation("TermSetQuery"@),
        ),
        any_query::compilation_error(AnyQuery::Regex(regex), context) == Some(
            ErrorView::UnsupportedQueryForSingleDocumentEvaluation("RegexQuery"@),
        ),
        any_query::compilation_error(AnyQuery::Boost(boosted), context) == (
        match any_query::compilation_error(
            *boosted.underlying,
            ContextView { boost: context.boost.push(boosted.boost), ..context },
        ) {
            Some(error) => Some(reached_by("BoostQuery"@, error)),
            None => None,
        }),
        any_query::compilation_error(AnyQuery::ConstScore(constant), context) == (
        match any_query::compilation_error(
            *constant.query,
            ContextView { statistics: None, ..context },
        ) {
            Some(error) => Some(reached_by("ConstScoreQuery"@, error)),
            None => None,
        }),
{
}

/// The error of compiling a clause.
pub open spec fn clause_error(clause: (Occur, AnyQuery), context: ContextView) -> Option<
    ErrorView,
> {
    any_query::compilation_error(
        clause.1,
        if clause.0 == Occur::MustNot {
            ContextView { statistics: None, ..context }
        } else {
            context
        },
    )
}

/// The way to the clause at an index of a boolean query.
pub open spec fn way_to_clause(occur: Occur, index: nat) -> Seq<char> {
    "BooleanQuery."@ + (match occur {
        Occur::Should => "Should"@,
        Occur::Must => "Must"@,
        Occur::MustNot => "MustNot"@,
    }) + "["@ + text::decimal(index) + "]"@
}

/// The error of compiling a boolean query is that of its first clause that counts and has one, with
/// the way to it; there is none where no such clause has one.
pub proof fn boolean_query_has_the_error_of_its_first_faulty_clause(
    query: BooleanQuery,
    context: ContextView,
    n: int,
)
    requires
        0 <= n <= query.clauses@.len(),
        forall|i: int|
            0 <= i < n && boolean_laws::clause_counts(
                query.clauses@,
                #[trigger] query.clauses@[i],
                context,
            ) ==> clause_error(query.clauses@[i], context) is None,
        n < query.clauses@.len() ==> boolean_laws::clause_counts(
            query.clauses@,
            query.clauses@[n],
            context,
        ) && clause_error(query.clauses@[n], context) is Some,
    ensures
        any_query::compilation_error(AnyQuery::Boolean(query), context) == (if n
            < query.clauses@.len() {
            Some(
                reached_by(
                    way_to_clause(query.clauses@[n].0, n as nat),
                    clause_error(query.clauses@[n], context)->0,
                ),
            )
        } else {
            None
        }),
{
    let clauses = query.clauses@;
    first_clauses_have_no_error(clauses, n as nat, context);
    if n < clauses.len() {
        skipped_clauses_do_not_count(clauses, clauses[n], context);
        assert(any_query::clause_path(clauses[n].0, n as nat) == way_to_clause(
            clauses[n].0,
            n as nat,
        ));
        let error = any_query::clauses_error(clauses, (n + 1) as nat, context);
        assert(error == Some(
            reached_by(
                way_to_clause(clauses[n].0, n as nat),
                clause_error(clauses[n], context)->0,
            ),
        ));
        first_error_stays(clauses, (n + 1) as nat, context);
    }
}

proof fn first_clauses_have_no_error(
    clauses: Seq<(Occur, AnyQuery)>,
    n: nat,
    context: ContextView,
)
    requires
        n <= clauses.len(),
        forall|i: int|
            0 <= i < n && boolean_laws::clause_counts(clauses, #[trigger] clauses[i], context)
                ==> clause_error(clauses[i], context) is None,
    ensures
        any_query::clauses_error(clauses, n, context) is None,
    decreases n,
{
    if n > 0 {
        first_clauses_have_no_error(clauses, (n - 1) as nat, context);
        skipped_clauses_do_not_count(clauses, clauses[n - 1], context);
    }
}

proof fn first_error_stays(clauses: Seq<(Occur, AnyQuery)>, n: nat, context: ContextView)
    requires
        n <= clauses.len(),
        any_query::clauses_error(clauses, n, context) is Some,
    ensures
        any_query::clauses_error(clauses, clauses.len(), context) == any_query::clauses_error(
            clauses,
            n,
            context,
        ),
    decreases clauses.len() - n,
{
    if n < clauses.len() {
        first_error_stays(clauses, n + 1, context);
    }
}

/// A query of one kind is compiled with the error that compiling it by itself gives, if any.
pub proof fn queries_of_one_kind_have_their_own_errors(
    term: TermQuery,
    phrase: PhraseQuery,
    phrase_prefix: PhrasePrefixQuery,
    fuzzy: FuzzyTermQuery,
    context: ContextView,
)
    ensures
        any_query::compilation_error(AnyQuery::Term(term), context) == (
        match term_query::compiled(term@, context) {
            Ok(_) => None,
            Err(error) => Some(error),
        }),
        any_query::compilation_error(AnyQuery::Phrase(phrase), context) == (
        match phrase_query::compiled(phrase@, context) {
            Ok(_) => None,
            Err(error) => Some(error),
        }),
        any_query::compilation_error(AnyQuery::PhrasePrefix(phrase_prefix), context) == (
        match phrase_prefix_query::compiled(phrase_prefix@, context) {
            Ok(_) => None,
            Err(error) => Some(error),
        }),
        any_query::compilation_error(AnyQuery::Fuzzy(fuzzy), context) == (
        match fuzzy_query::compiled(fuzzy@, context) {
            Ok(_) => None,
            Err(error) => Some(error),
        }),
{
}

/// The postings of a term can be read at the level that is asked for, but no higher than the field
/// records, and in a JSON field no higher than the lowest unless the term is a text. The field has
/// to exist and to be indexed.
pub proof fn postings_are_read_as_far_as_they_go(
    schema: Seq<FieldEntryView>,
    wanted: TermView,
    requested: IndexRecordOption,
)
    ensures
        ({
            let entry = schema[wanted.field.0 as int];
            let found = single_document::record_option(schema, wanted, requested);
            let indexed = wanted.field.0 < schema.len() && entry.field_type.record_option is Some;
            &&& found is Ok <==> indexed
            &&& !indexed ==> (found matches Err(error) && error is SchemaError)
            &&& found matches Ok((level, fieldnorms)) ==> {
                let stored = entry.field_type.record_option->0;
                let capped = entry.field_type.value_type == Type::Json && term::json_value_type(
                    wanted,
                ) != Some(Type::Str);
                &&& fieldnorms == entry.field_type.fieldnorms
                &&& level == IndexRecordOption::Basic <==> capped || requested
                    == IndexRecordOption::Basic || stored == IndexRecordOption::Basic
                &&& level == IndexRecordOption::WithFreqsAndPositions <==> !capped && requested
                    == IndexRecordOption::WithFreqsAndPositions && stored
                    == IndexRecordOption::WithFreqsAndPositions
            }
        }),
{
}

/// On an index, a query with fixed terms needs a field with positions. Its weight has the fixed
/// terms, the prefix and the number of expansions of the query, and, where scores are computed, holds
/// the given statistics of the field and the fixed terms.
pub proof fn phrase_prefix_weight_is_that_of_the_query(
    query: PhrasePrefixQueryView,
    scoring: ScoringView,
)
    requires
        query.well_formed(),
        query.field.0 < scoring.schema().len(),
        query.phrase_terms.len() > 0,
    ensures
        ({
            let terms = query.phrase_terms;
            let all = Seq::new(terms.len(), |i: int| terms[i].1);
            let weighed = phrase_prefix_query::weighed(query, scoring);
            let positions = phrase_score_laws::indexes_positions(scoring.schema(), query.field);
            let known = scoring matches ScoringView::Enabled { statistics, .. }
                ==> statistics::are_known(statistics, query.field, all);
            &&& weighed is Ok <==> positions && known
            &&& !positions ==> (weighed matches Err(error) && error is SchemaError)
            &&& weighed matches Ok(weight) ==> {
                &&& weight matches PhrasePrefixQueryWeightView::Phrase(weight)
                    && weight.phrase_terms == terms && weight.prefix == query.prefix
                    && weight.max_expansions == query.max_expansions && match scoring {
                    ScoringView::Enabled { statistics, .. } => weight.bm25_weight matches Some(found)
                        && statistics::weighs_terms(
                        found,
                        statistics,
                        query.field,
                        all,
                        Seq::empty(),
                    ),
                    ScoringView::Disabled { .. } => weight.bm25_weight is None,
                }
            }
        }),
{
    let terms = query.phrase_terms;
    let all = Seq::new(terms.len(), |i: int| terms[i].1);
    assert(phrase::terms_of(terms) =~= all);
    assert forall|i: int| 0 <= i < all.len() implies (#[trigger] all[i]).field == query.field by {
        assert(query.terms()[i] == terms[i]);
    }
    if let ScoringView::Enabled { statistics, .. } = scoring {
        statistics::weight_holds_the_statistics_of_its_terms(statistics, query.field, all);
    }
}

/// On an index, a query that is a prefix only is a range: it is for the field of the query by its
/// name, looks at no more terms than the prefix may expand to, and holds exactly the terms of the
/// field and type of the prefix that begin with it. Where nothing comes behind these, the range has
/// no end.
pub proof fn prefix_alone_is_the_range_of_its_terms(
    query: PhrasePrefixQueryView,
    scoring: ScoringView,
    found: TermView,
)
    requires
        query.well_formed(),
        query.field.0 < scoring.schema().len(),
        query.phrase_terms.len() == 0,
        found.field == query.field,
        found.typ == query.prefix.1.typ,
    ensures
        phrase_prefix_query::weighed(query, scoring) matches Ok(
            PhrasePrefixQueryWeightView::Range(range),
        ) && range.field == scoring.schema()[query.field.0 as int].name && range.value_type
            == query.prefix.1.typ && range.limit == Some(query.max_expansions as u64) && (
        single_document::after_start(range.lower_bound, found) && single_document::before_end(
            range.upper_bound,
            found,
        ) <==> query.prefix.1.value.is_prefix_of(found.value)),
{
    let prefix = query.prefix.1;
    assert(query.terms()[0] == query.prefix);
    assert(prefix.field == query.field);
    if prefix.value.is_prefix_of(found.value) {
        bytes::prefix_is_not_behind(prefix.value, found.value);
        phrase_prefix_evaluator::prefix_range_holds_the_prefixed_terms(prefix, found);
    } else if single_document::after_start(BoundView::Included(prefix), found) {
        phrase_prefix_evaluator::prefix_range_holds_the_prefixed_terms(prefix, found);
    }
}

} // verus!
