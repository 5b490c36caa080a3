//! A query for the terms within an edit distance of a given one.

use vstd::prelude::*;
use crate::bytes;
use crate::error;
use crate::error::{ErrorView, TantivyError};
use crate::levenshtein;
use crate::levenshtein::{DfaWrapper, Pattern};
use crate::query::{EnableScoring, Query, ScoringView};
use crate::schema::{Field, IndexRecordOption, Type};
use crate::score::{Boost, DocumentEvaluation, EvaluationView, Score, ScoreView};
use crate::single_document;
use crate::single_document::{BoundView, ContextView, DocumentView, SingleDocument};
use crate::single_document::{SingleDocumentEvaluationContext, SingleDocumentEvaluator};
use crate::single_document::{TermBound, TermInfoView};
use crate::statistics::Bm25StatisticsProvider;
use crate::term;
use crate::term::{Term, TermView};

verus! {

/// The distances below this one are allowed.
pub const DISTANCE_LIMIT: u8 = 3;

/// A Fuzzy Query matches all of the documents containing a specific term that is within
/// Levenshtein distance.
#[derive(Debug)]
pub struct FuzzyTermQuery {
    /// What term are we searching
    term: Term,
    /// How many changes are we going to allow
    distance: u8,
    /// Should a transposition cost 1 or 2?
    transposition_cost_one: bool,
    /// is a starts with query
    prefix: bool,
}

/// The contents of a [`FuzzyTermQuery`].
#[verifier::ext_equal]
pub struct FuzzyTermQueryView {
    /// The term.
    pub term: TermView,
    /// The number of edits that are allowed.
    pub distance: u8,
    /// Swapping adjacent characters is one edit.
    pub transposition_cost_one: bool,
    /// A matching term may go on.
    pub prefix: bool,
}

impl View for FuzzyTermQuery {
    type V = FuzzyTermQueryView;

    closed spec fn view(&self) -> FuzzyTermQueryView {
        FuzzyTermQueryView {
            term: self.term@,
            distance: self.distance,
            transposition_cost_one: self.transposition_cost_one,
            prefix: self.prefix,
        }
    }
}

impl Clone for FuzzyTermQuery {
    fn clone(&self) -> (r: FuzzyTermQuery)
        ensures
            r@ == self@,
    {
        FuzzyTermQuery {
            term: self.term.clone(),
            distance: self.distance,
            transposition_cost_one: self.transposition_cost_one,
            prefix: self.prefix,
        }
    }
}

/// The text of a term, or the error that it has none.
pub open spec fn fuzzy_text(term: TermView) -> Result<Seq<char>, ErrorView> {
    if term.typ == Type::Json {
        match term::json_value_type(term) {
            Some(value_type) if value_type != Type::Str => Err(error::fuzzy_json_type(value_type)),
            _ => if vstd::utf8::valid_utf8(term.value) {
                Ok(vstd::utf8::decode_utf8(term.value))
            } else {
                Err(error::fuzzy_json_not_utf8())
            },
        }
    } else if term.typ == Type::Str && vstd::utf8::valid_utf8(term.value) {
        Ok(vstd::utf8::decode_utf8(term.value))
    } else {
        Err(error::fuzzy_not_text())
    }
}

/// What a query accepts: a pattern for the whole value of a term. The pattern of a JSON term is for
/// its path and its text together, and the path has to be the same.
pub open spec fn fuzzy_pattern(query: FuzzyTermQueryView) -> Result<
    (Pattern, Option<Seq<u8>>),
    ErrorView,
> {
    if query.distance >= DISTANCE_LIMIT {
        Err(error::distance_not_allowed(query.distance as nat, DISTANCE_LIMIT as nat))
    } else {
        match fuzzy_text(query.term) {
            Err(error) => Err(error),
            Ok(text) => Ok(
                (
                    Pattern {
                        distance: query.distance,
                        transpositions: query.transposition_cost_one,
                        prefix: query.prefix,
                        text,
                    },
                    match term::json_parts(query.term) {
                        Some((path, _)) => Some(path),
                        None => None,
                    },
                ),
            ),
        }
    }
}

/// The contents of an optional path.
pub open spec fn path_view(path: Option<Vec<u8>>) -> Option<Seq<u8>> {
    match path {
        Some(path) => Some(path@),
        None => None,
    }
}

/// An automaton over the terms of a field, tied to a searcher.
pub struct AutomatonWeight {
    field: Field,
    automaton: DfaWrapper,
    json_path: Option<Vec<u8>>,
}

impl AutomatonWeight {
    /// The field whose terms are looked at.
    pub closed spec fn spec_field(&self) -> Field {
        self.field
    }

    /// The automaton that decides which terms match.
    pub closed spec fn spec_automaton(&self) -> DfaWrapper {
        self.automaton
    }

    /// The JSON path of the terms, for terms that have one.
    pub closed spec fn spec_json_path(&self) -> Option<Seq<u8>> {
        path_view(self.json_path)
    }

    /// A weight for the terms of a field that the automaton accepts.
    pub fn new(field: Field, automaton: DfaWrapper) -> (r: AutomatonWeight)
        ensures
            r.spec_field() == field,
            r.spec_automaton() == automaton,
            r.spec_json_path() is None,
    {
        AutomatonWeight { field, automaton, json_path: None }
    }

    /// A weight for the terms of a field with a JSON path that the automaton accepts.
    pub fn new_for_json_path(field: Field, automaton: DfaWrapper, json_path: &[u8]) -> (r:
        AutomatonWeight)
        ensures
            r.spec_field() == field,
            r.spec_automaton() == automaton,
            r.spec_json_path() == Some(json_path@),
    {
        AutomatonWeight { field, automaton, json_path: Some(bytes::copy_of(json_path)) }
    }

    /// Returns the field whose terms are looked at.
    pub fn field(&self) -> (r: Field)
        ensures
            r == self.spec_field(),
    {
        self.field
    }

    /// Returns the automaton that decides which terms match.
    pub fn automaton(&self) -> (r: &DfaWrapper)
        ensures
            *r == self.spec_automaton(),
    {
        &self.automaton
    }

    /// Returns the JSON path of the terms, for terms that have one.
    pub fn json_path(&self) -> (r: Option<&[u8]>)
        ensures
            match r {
                Some(path) => self.spec_json_path() == Some(path@),
                None => self.spec_json_path() is None,
            },
    {
        match &self.json_path {
            Some(path) => Some(path.as_slice()),
            None => None,
        }
    }
}

impl FuzzyTermQuery {
    /// Creates a new Fuzzy Query
    pub fn new(term: Term, distance: u8, transposition_cost_one: bool) -> (r: FuzzyTermQuery)
        ensures
            r@ == (FuzzyTermQueryView {
                term: term@,
                distance,
                transposition_cost_one,
                prefix: false,
            }),
    {
        FuzzyTermQuery { term, distance, transposition_cost_one, prefix: false }
    }

    /// Creates a new Fuzzy Query of the Term prefix
    pub fn new_prefix(term: Term, distance: u8, transposition_cost_one: bool) -> (r: FuzzyTermQuery)
        ensures
            r@ == (FuzzyTermQueryView {
                term: term@,
                distance,
                transposition_cost_one,
                prefix: true,
            }),
    {
        FuzzyTermQuery { term, distance, transposition_cost_one, prefix: true }
    }

    /// Builds the automaton for the query, and returns the path that a JSON term has to have.
    pub fn specialized_automaton(&self) -> (r: Result<
        (DfaWrapper, Option<Vec<u8>>),
        TantivyError,
    >)
        ensures
            match r {
                Ok((automaton, json_path)) => fuzzy_pattern(self@) matches Ok((pattern, path))
                    && automaton.decides(pattern) && path_view(json_path) == path,
                Err(error) => fuzzy_pattern(self@) == Err::<
                    (Pattern, Option<Seq<u8>>),
                    ErrorView,
                >(error@),
            },
    {
        if self.distance >= DISTANCE_LIMIT {
            return Err(
                error::distance_not_allowed_error(self.distance as u64, DISTANCE_LIMIT as u64),
            );
        }
        let is_json = self.term.typ() == Type::Json;
        if is_json {
            if let Some(value_type) = self.term.json_value_type() {
                if value_type != Type::Str {
                    return Err(error::fuzzy_json_type_error(value_type));
                }
            }
        } else if self.term.typ() != Type::Str {
            return Err(error::fuzzy_not_text_error());
        }
        let term_text: &str = match levenshtein::utf8_text(self.term.serialized_value_bytes()) {
            Some(term_text) => term_text,
            None => {
                return if is_json {
                    Err(error::fuzzy_json_not_utf8_error())
                } else {
                    Err(error::fuzzy_not_text_error())
                };
            },
        };
        let automaton = DfaWrapper::new(
            self.distance,
            self.transposition_cost_one,
            self.prefix,
            term_text,
        );
        let json_path: Option<Vec<u8>> = match self.term.as_json() {
            Some((path, _)) => Some(bytes::copy_of(path)),
            None => None,
        };
        Ok((automaton, json_path))
    }

    /// The weight is for the field of the query, and accepts what the query accepts.
    pub open spec fn weight_fits(&self, weight: AutomatonWeight) -> bool {
        fuzzy_pattern(self@) matches Ok((pattern, path)) && weight.spec_field() == self@.term.field
            && weight.spec_automaton().decides(pattern) && weight.spec_json_path() == path
    }

    /// Creates the weight of the query, which does not depend on an index.
    pub fn specialized_weight(&self) -> (r: Result<AutomatonWeight, TantivyError>)
        ensures
            match r {
                Ok(weight) => self.weight_fits(weight),
                Err(error) => fuzzy_pattern(self@) == Err::<
                    (Pattern, Option<Seq<u8>>),
                    ErrorView,
                >(error@),
            },
    {
        match self.specialized_automaton() {
            Ok((automaton, json_path)) => match json_path {
                Some(json_path_bytes) => Ok(
                    AutomatonWeight::new_for_json_path(
                        self.term.field(),
                        automaton,
                        json_path_bytes.as_slice(),
                    ),
                ),
                None => Ok(AutomatonWeight::new(self.term.field(), automaton)),
            },
            Err(error) => Err(error),
        }
    }
}

/// The contents of a [`FuzzySingleDocumentEvaluator`].
pub struct FuzzyEvaluatorView {
    /// The field whose terms are looked at.
    pub field: Field,
    /// What the query accepts.
    pub pattern: Pattern,
    /// The path that a JSON term has to have.
    pub json_path: Option<Seq<u8>>,
    /// The score of a match.
    pub score: ScoreView,
}

/// What compiling a query gives.
pub open spec fn compiled(query: FuzzyTermQueryView, context: ContextView) -> Result<
    FuzzyEvaluatorView,
    ErrorView,
> {
    match single_document::record_option(context.schema, query.term, IndexRecordOption::Basic) {
        Err(error) => Err(error),
        Ok(_) => match fuzzy_pattern(query) {
            Err(error) => Err(error),
            Ok((pattern, json_path)) => Ok(
                FuzzyEvaluatorView {
                    field: query.term.field,
                    pattern,
                    json_path,
                    score: context.constant_score(),
                },
            ),
        },
    }
}

/// A term of a document has the path that is looked for, and is accepted.
pub open spec fn fuzzy_match(evaluator: FuzzyEvaluatorView, term: TermView) -> bool {
    &&& evaluator.json_path matches Some(path) ==> (term::json_parts(term) matches Some((found, _))
        && found == path)
    &&& levenshtein::accepts(evaluator.pattern, term.value)
}

/// An entry of a document is for a matching term.
pub open spec fn matching_entry(evaluator: FuzzyEvaluatorView) -> spec_fn(
    (TermView, TermInfoView),
) -> bool {
    |entry: (TermView, TermInfoView)| fuzzy_match(evaluator, entry.0)
}

/// What a compiled query answers for a document: whether one of its terms matches. The first such
/// term has to be one that occurs.
pub open spec fn fuzzy_result(evaluator: FuzzyEvaluatorView, document: DocumentView) -> Result<
    EvaluationView,
    ErrorView,
> {
    let visited = (document.visited)(
        evaluator.field,
        BoundView::Unbounded,
        BoundView::Unbounded,
    );
    let matching = visited.filter(matching_entry(evaluator));
    if matching.len() == 0 {
        Ok(EvaluationView::NoMatch)
    } else {
        match single_document::term_info_check(matching[0].0, matching[0].1.term_freq) {
            Err(error) => Err(error),
            Ok(_) => Ok(EvaluationView::Match(evaluator.score)),
        }
    }
}

/// A fuzzy query matches exactly the documents in which a term of the field is accepted.
pub proof fn fuzzy_query_matches_where_a_term_does(
    evaluator: FuzzyEvaluatorView,
    document: DocumentView,
)
    requires
        fuzzy_result(evaluator, document) is Ok,
    ensures
        ({
            let visited = (document.visited)(
                evaluator.field,
                BoundView::Unbounded,
                BoundView::Unbounded,
            );
            fuzzy_result(evaluator, document)->Ok_0 is Match <==> exists|i: int|
                0 <= i < visited.len() && fuzzy_match(evaluator, (#[trigger] visited[i]).0)
        }),
{
    let visited = (document.visited)(evaluator.field, BoundView::Unbounded, BoundView::Unbounded);
    let pred = matching_entry(evaluator);
    let matching = visited.filter(pred);
    if matching.len() > 0 {
        visited.lemma_filter_pred(pred, 0);
        assert(matching.contains(matching[0]));
        visited.lemma_filter_contains_rev(pred, matching[0]);
        let i = visited.index_of(matching[0]);
        assert(fuzzy_match(evaluator, visited[i].0));
    }
    if exists|i: int| 0 <= i < visited.len() && fuzzy_match(evaluator, (#[trigger] visited[i]).0) {
        let i = choose|i: int|
            0 <= i < visited.len() && fuzzy_match(evaluator, (#[trigger] visited[i]).0);
        assert(pred(visited[i]));
        visited.lemma_filter_contains(pred, i);
    }
}

impl Query for FuzzyTermQuery {
    type Weight = AutomatonWeight;

    type Evaluator = FuzzySingleDocumentEvaluator;

    open spec fn name(&self) -> Seq<char> {
        "FuzzyTermQuery"@
    }

    open spec fn weighable(&self, scoring: ScoringView) -> bool {
        true
    }

    open spec fn weighs(
        &self,
        scoring: ScoringView,
        weight: Result<AutomatonWeight, ErrorView>,
    ) -> bool {
        match weight {
            Ok(weight) => self.weight_fits(weight),
            Err(error) => fuzzy_pattern(self@) == Err::<(Pattern, Option<Seq<u8>>), ErrorView>(
                error,
            ),
        }
    }

    open spec fn compiles(
        &self,
        context: ContextView,
        outcome: Result<FuzzySingleDocumentEvaluator, ErrorView>,
    ) -> bool {
        compiled(self@, context) == match outcome {
            Ok(evaluator) => Ok(evaluator@),
            Err(error) => Err(error),
        }
    }

    fn query_name(&self) -> (r: String) {
        "FuzzyTermQuery".to_owned()
    }

    fn weight<S: Bm25StatisticsProvider + ?Sized>(
        &self,
        enable_scoring: EnableScoring<'_, S>,
    ) -> (r: Result<AutomatonWeight, TantivyError>) {
        self.specialized_weight()
    }

    fn single_document_evaluator<S: Bm25StatisticsProvider + ?Sized>(
        &self,
        context: SingleDocumentEvaluationContext<'_, S>,
    ) -> (r: Result<FuzzySingleDocumentEvaluator, TantivyError>)
        ensures
            match r {
                Ok(evaluator) => compiled(self@, context@) == Ok::<FuzzyEvaluatorView, ErrorView>(
                    evaluator@,
                ),
                Err(error) => compiled(self@, context@) == Err::<FuzzyEvaluatorView, ErrorView>(
                    error@,
                ),
            },
    {
        match single_document::effective_record_option(
            context.schema(),
            &self.term,
            IndexRecordOption::Basic,
        ) {
            Ok(_) => {},
            Err(error) => {
                return Err(error);
            },
        }
        match self.specialized_automaton() {
            Ok((automaton, json_path)) => Ok(
                FuzzySingleDocumentEvaluator {
                    fields: vec![self.term.field()],
                    automaton,
                    pattern: Ghost(fuzzy_pattern(self@)->Ok_0.0),
                    json_path,
                    score: context.constant_score(),
                },
            ),
            Err(error) => Err(error),
        }
    }
}

/// A [`FuzzyTermQuery`] compiled for the evaluation of single documents.
pub struct FuzzySingleDocumentEvaluator {
    fields: Vec<Field>,
    automaton: DfaWrapper,
    pattern: Ghost<Pattern>,
    json_path: Option<Vec<u8>>,
    score: Boost,
}

impl View for FuzzySingleDocumentEvaluator {
    type V = FuzzyEvaluatorView;

    closed spec fn view(&self) -> FuzzyEvaluatorView {
        FuzzyEvaluatorView {
            field: self.fields@[0],
            pattern: self.pattern@,
            json_path: path_view(self.json_path),
            score: ScoreView::Product(self.score@),
        }
    }
}

impl FuzzySingleDocumentEvaluator {
    /// Returns whether a term has the path that is looked for, and is accepted.
    fn term_matches(&self, term: &Term) -> (r: bool)
        requires
            self.well_formed(),
        ensures
            r == fuzzy_match(self@, term@),
    {
        if let Some(expected_json_path) = &self.json_path {
            match term.as_json() {
                Some((candidate_json_path, _)) => {
                    if !bytes::bytes_equal(candidate_json_path, expected_json_path.as_slice()) {
                        return false;
                    }
                },
                None => {
                    return false;
                },
            }
        }
        levenshtein::automaton_matches(&self.automaton, term.serialized_value_bytes())
    }

    /// Evaluates a document.
    pub(crate) fn run<D: SingleDocument + ?Sized>(&self, document: &D) -> (r: Result<
        DocumentEvaluation,
        TantivyError,
    >)
        requires
            self.well_formed(),
        ensures
            single_document::evaluation(r) == fuzzy_result(self@, document.document()),
    {
        let visited = document.visit_terms(
            self.fields[0],
            TermBound::Unbounded,
            TermBound::Unbounded,
        );
        let ghost all = single_document::visited_views(visited@);
        let ghost pred = matching_entry(self@);
        let mut i: usize = 0;
        assert(all.take(0).filter(pred) =~= Seq::empty()) by {
            reveal(Seq::filter);
        }
        while i < visited.len()
            invariant
                i <= visited.len(),
                self.well_formed(),
                all == single_document::visited_views(visited@),
                pred == matching_entry(self@),
                all == (document.document().visited)(
                    self@.field,
                    BoundView::Unbounded,
                    BoundView::Unbounded,
                ),
                all.take(i as int).filter(pred).len() == 0,
            decreases visited.len() - i,
        {
            proof {
                reveal(Seq::filter);
                assert(all.take(i + 1).drop_last() =~= all.take(i as int));
                single_document::filter_of_prefix(all, pred, i + 1);
            }
            if self.term_matches(visited[i].term) {
                assert(all.take(i + 1).filter(pred)[0] == all[i as int]);
                assert(all.filter(pred)[0] == all.filter(pred).take(1)[0]);
                return match single_document::validate_term_info(
                    visited[i].term,
                    visited[i].info.term_freq,
                ) {
                    Ok(_) => Ok(DocumentEvaluation::Match(Score::Product(self.score.clone()))),
                    Err(error) => Err(error),
                };
            }
            i += 1;
        }
        assert(all.take(i as int) =~= all);
        Ok(DocumentEvaluation::NoMatch)
    }
}

impl SingleDocumentEvaluator for FuzzySingleDocumentEvaluator {
    closed spec fn well_formed(&self) -> bool {
        self.fields@.len() == 1 && self.automaton.decides(self.pattern@)
    }

    open spec fn required(&self) -> Option<Seq<Field>> {
        Some(seq![self@.field])
    }

    open spec fn result(&self, document: DocumentView) -> Result<EvaluationView, ErrorView> {
        fuzzy_result(self@, document)
    }

    fn evaluate_impl<D: SingleDocument + ?Sized>(&mut self, document: &D) -> (r: Result<
        DocumentEvaluation,
        TantivyError,
    >) {
        self.run(document)
    }

    fn required_fields(&self) -> (r: Option<&[Field]>) {
        assert(self.fields@ =~= seq![self@.field]);
        Some(self.fields.as_slice())
    }
}

} // verus!
