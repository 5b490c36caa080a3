//! Edit distances, and the automata that decide which texts are within one.

use vstd::prelude::*;
use levenshtein_automata::{Distance, LevenshteinAutomatonBuilder, DFA};

verus! {

/// The number of edits that turn `a` into `b`: characters inserted, deleted or replaced, and, where
/// `transpositions` is set, pairs of adjacent characters swapped. No character is edited after
/// it was swapped.
pub open spec fn edit_distance(a: Seq<char>, b: Seq<char>, transpositions: bool) -> nat
    decreases a.len() + b.len(),
{
    if a.len() == 0 {
        b.len()
    } else if b.len() == 0 {
        a.len()
    } else {
        let replaced = edit_distance(a.drop_last(), b.drop_last(), transpositions) + if a.last()
            == b.last() {
            0nat
        } else {
            1nat
        };
        let deleted = edit_distance(a.drop_last(), b, transpositions) + 1;
        let inserted = edit_distance(a, b.drop_last(), transpositions) + 1;
        let best = least(replaced, least(deleted, inserted));
        if transpositions && a.len() >= 2 && b.len() >= 2 && a.last() == b[b.len() - 2]
            && a[a.len() - 2] == b.last() {
            least(best, edit_distance(a.take(a.len() - 2), b.take(b.len() - 2), true) + 1)
        } else {
            best
        }
    }
}

/// The lesser of two numbers.
pub open spec fn least(a: nat, b: nat) -> nat {
    if a <= b {
        a
    } else {
        b
    }
}

/// No edits are needed exactly between equal texts.
pub proof fn zero_edits_means_equal(a: Seq<char>, b: Seq<char>, transpositions: bool)
    ensures
        edit_distance(a, b, transpositions) == 0 <==> a == b,
    decreases a.len() + b.len(),
{
    if a.len() == 0 || b.len() == 0 {
        if a.len() == b.len() {
            assert(a =~= b);
        }
    } else {
        zero_edits_means_equal(a.drop_last(), b.drop_last(), transpositions);
        if a.drop_last() == b.drop_last() && a.last() == b.last() {
            assert(a =~= a.drop_last().push(a.last()));
            assert(b =~= b.drop_last().push(b.last()));
        }
    }
}

/// Swapping adjacent characters at the cost of one edit never makes a text further away.
pub proof fn transpositions_do_not_add_edits(a: Seq<char>, b: Seq<char>)
    ensures
        edit_distance(a, b, true) <= edit_distance(a, b, false),
    decreases a.len() + b.len(),
{
    if a.len() > 0 && b.len() > 0 {
        transpositions_do_not_add_edits(a.drop_last(), b.drop_last());
        transpositions_do_not_add_edits(a.drop_last(), b);
        transpositions_do_not_add_edits(a, b.drop_last());
    }
}

/// It takes as many edits in either direction.
pub proof fn edit_distance_is_symmetric(a: Seq<char>, b: Seq<char>, transpositions: bool)
    ensures
        edit_distance(a, b, transpositions) == edit_distance(b, a, transpositions),
    decreases a.len() + b.len(),
{
    if a.len() > 0 && b.len() > 0 {
        edit_distance_is_symmetric(a.drop_last(), b.drop_last(), transpositions);
        edit_distance_is_symmetric(a.drop_last(), b, transpositions);
        edit_distance_is_symmetric(a, b.drop_last(), transpositions);
        if transpositions && a.len() >= 2 && b.len() >= 2 {
            edit_distance_is_symmetric(a.take(a.len() - 2), b.take(b.len() - 2), true);
        }
    }
}

/// The same characters behind two texts do not move them apart.
pub proof fn common_endings_do_not_add_edits(
    a: Seq<char>,
    b: Seq<char>,
    ending: Seq<char>,
    transpositions: bool,
)
    ensures
        edit_distance(a + ending, b + ending, transpositions) <= edit_distance(
            a,
            b,
            transpositions,
        ),
    decreases ending.len(),
{
    if ending.len() == 0 {
        assert(a + ending =~= a);
        assert(b + ending =~= b);
    } else {
        let shorter = ending.drop_last();
        common_endings_do_not_add_edits(a, b, shorter, transpositions);
        let x = a + ending;
        let y = b + ending;
        assert(x.drop_last() =~= a + shorter);
        assert(y.drop_last() =~= b + shorter);
        assert(x.last() == y.last());
    }
}

/// Texts that differ in one character that is inserted, deleted or replaced are one edit apart at
/// most, and so are those that differ in a swap of two adjacent characters, where that is one edit.
pub proof fn single_edits_are_one_edit(
    beginning: Seq<char>,
    c: char,
    d: char,
    ending: Seq<char>,
    transpositions: bool,
)
    ensures
        edit_distance(beginning + ending, beginning.push(c) + ending, transpositions) <= 1,
        edit_distance(beginning.push(c) + ending, beginning + ending, transpositions) <= 1,
        edit_distance(beginning.push(c) + ending, beginning.push(d) + ending, transpositions) <= 1,
        edit_distance(
            beginning.push(c).push(d) + ending,
            beginning.push(d).push(c) + ending,
            true,
        ) <= 1,
{
    let longer = beginning.push(c);
    let other = beginning.push(d);
    zero_edits_means_equal(beginning, beginning, transpositions);
    zero_edits_means_equal(beginning, beginning, true);
    assert(longer.drop_last() =~= beginning);
    assert(other.drop_last() =~= beginning);
    assert(edit_distance(beginning, longer, transpositions) <= 1);
    assert(edit_distance(longer, beginning, transpositions) <= 1);
    assert(edit_distance(longer, other, transpositions) <= 1);
    let first = longer.push(d);
    let second = other.push(c);
    assert(first.take(first.len() - 2) =~= beginning);
    assert(second.take(second.len() - 2) =~= beginning);
    assert(edit_distance(first, second, true) <= 1);
    common_endings_do_not_add_edits(beginning, longer, ending, transpositions);
    common_endings_do_not_add_edits(longer, beginning, ending, transpositions);
    common_endings_do_not_add_edits(longer, other, ending, transpositions);
    common_endings_do_not_add_edits(first, second, ending, true);
}

/// It takes at least as many edits as two texts differ in length, and no more than the longer one
/// has characters.
pub proof fn edits_are_bounded_by_the_lengths(a: Seq<char>, b: Seq<char>, transpositions: bool)
    ensures
        a.len() - b.len() <= edit_distance(a, b, transpositions),
        b.len() - a.len() <= edit_distance(a, b, transpositions),
        edit_distance(a, b, transpositions) <= a.len() || edit_distance(a, b, transpositions)
            <= b.len(),
    decreases a.len() + b.len(),
{
    if a.len() > 0 && b.len() > 0 {
        edits_are_bounded_by_the_lengths(a.drop_last(), b.drop_last(), transpositions);
        edits_are_bounded_by_the_lengths(a.drop_last(), b, transpositions);
        edits_are_bounded_by_the_lengths(a, b.drop_last(), transpositions);
        if transpositions && a.len() >= 2 && b.len() >= 2 {
            edits_are_bounded_by_the_lengths(a.take(a.len() - 2), b.take(b.len() - 2), true);
        }
    }
}

/// What a fuzzy query accepts.
#[verifier::ext_equal]
pub struct Pattern {
    /// The number of edits that are allowed.
    pub distance: u8,
    /// Swapping adjacent characters is one edit.
    pub transpositions: bool,
    /// A text may go on behind the part that is within the distance.
    pub prefix: bool,
    /// The text that is looked for.
    pub text: Seq<char>,
}

/// Some text that `chars` begins with is within the distance of the pattern.
pub open spec fn some_start_within(pattern: Pattern, chars: Seq<char>) -> bool {
    exists|n: int|
        0 <= n <= chars.len() && edit_distance(
            pattern.text,
            #[trigger] chars.take(n),
            pattern.transpositions,
        ) <= pattern.distance
}

/// What the automaton of [`LevenshteinAutomatonBuilder::build_dfa`] answers for `bytes`.
pub uninterp spec fn dfa_accepts(
    distance: u8,
    transpositions: bool,
    text: Seq<char>,
    bytes: Seq<u8>,
) -> bool;

/// What the automaton of [`LevenshteinAutomatonBuilder::build_prefix_dfa`] answers for `bytes`.
pub uninterp spec fn prefix_dfa_accepts(
    distance: u8,
    transpositions: bool,
    text: Seq<char>,
    bytes: Seq<u8>,
) -> bool;

/// A pattern accepts a byte string.
///
/// A text is accepted where it is within the distance. A pattern for prefixes accepts a text that
/// begins with the text of the pattern, or is within the distance of it, and no text of which no
/// beginning is within the distance. What is left, and bytes that are not a text, are up to the
/// automaton.
pub open spec fn accepts(pattern: Pattern, bytes: Seq<u8>) -> bool {
    let chars = vstd::utf8::decode_utf8(bytes);
    let within = edit_distance(pattern.text, chars, pattern.transpositions) <= pattern.distance;
    if !pattern.prefix {
        if vstd::utf8::valid_utf8(bytes) {
            within
        } else {
            dfa_accepts(pattern.distance, pattern.transpositions, pattern.text, bytes)
        }
    } else if vstd::utf8::valid_utf8(bytes) && (within || pattern.text.is_prefix_of(chars)) {
        true
    } else if vstd::utf8::valid_utf8(bytes) && !some_start_within(pattern, chars) {
        false
    } else {
        prefix_dfa_accepts(pattern.distance, pattern.transpositions, pattern.text, bytes)
    }
}

/// A pattern without edits accepts the text itself, or the texts that begin with it.
pub proof fn exact_pattern_accepts_the_text(pattern: Pattern, bytes: Seq<u8>)
    requires
        pattern.distance == 0,
        vstd::utf8::valid_utf8(bytes),
    ensures
        accepts(pattern, bytes) <==> (if pattern.prefix {
            pattern.text.is_prefix_of(vstd::utf8::decode_utf8(bytes))
        } else {
            pattern.text == vstd::utf8::decode_utf8(bytes)
        }),
{
    let chars = vstd::utf8::decode_utf8(bytes);
    zero_edits_means_equal(pattern.text, chars, pattern.transpositions);
    if pattern.prefix {
        if pattern.text == chars {
            assert(pattern.text =~= chars.subrange(0, chars.len() as int));
        }
        if some_start_within(pattern, chars) {
            let n = choose|n: int|
                0 <= n <= chars.len() && edit_distance(
                    pattern.text,
                    #[trigger] chars.take(n),
                    pattern.transpositions,
                ) <= pattern.distance;
            zero_edits_means_equal(pattern.text, chars.take(n), pattern.transpositions);
            assert(pattern.text =~= chars.subrange(0, n));
        }
    }
}

/// Allowing more edits, or counting a swap as one edit, accepts every text that was accepted.
pub proof fn wider_pattern_accepts_more(narrow: Pattern, wide: Pattern, bytes: Seq<u8>)
    requires
        !narrow.prefix,
        !wide.prefix,
        narrow.text == wide.text,
        narrow.distance <= wide.distance,
        narrow.transpositions ==> wide.transpositions,
        vstd::utf8::valid_utf8(bytes),
        accepts(narrow, bytes),
    ensures
        accepts(wide, bytes),
{
    transpositions_do_not_add_edits(narrow.text, vstd::utf8::decode_utf8(bytes));
}

/// What an automaton knows in one of its states of the distance.
#[derive(Clone, Copy, Debug, PartialEq, Eq, Structural)]
pub enum StateDistance {
    /// The distance, which is within the limit.
    Exact(u8),
    /// The distance is at least this large.
    AtLeast(u8),
}

/// An automaton for the texts within an edit distance of a text.
#[verifier::external_type_specification]
#[verifier::external_body]
pub struct ExDfa(DFA);

/// The initial state of an automaton.
pub uninterp spec fn dfa_start(dfa: DFA) -> u32;

/// The successors of the states of an automaton: for each state, one for each byte.
pub uninterp spec fn dfa_successors(dfa: DFA) -> Seq<Seq<u32>>;

/// The distances that the states of an automaton stand for.
pub uninterp spec fn dfa_distances(dfa: DFA) -> Seq<StateDistance>;

/// The state after reading `bytes`.
pub open spec fn dfa_run(dfa: DFA, bytes: Seq<u8>) -> u32
    decreases bytes.len(),
{
    if bytes.len() == 0 {
        dfa_start(dfa)
    } else {
        dfa_successors(dfa)[dfa_run(dfa, bytes.drop_last()) as int][bytes.last() as int]
    }
}

/// The state after reading `bytes` stands for an exact distance.
pub open spec fn dfa_matches(dfa: DFA, bytes: Seq<u8>) -> bool {
    dfa_distances(dfa)[dfa_run(dfa, bytes) as int] is Exact
}

/// Every state has a distance and a successor for each byte, and the initial state and the
/// successors are states.
pub open spec fn dfa_is_complete(dfa: DFA) -> bool {
    &&& dfa_distances(dfa).len() == dfa_successors(dfa).len()
    &&& dfa_start(dfa) < dfa_successors(dfa).len()
    &&& forall|state: int, byte: int|
        0 <= state < dfa_successors(dfa).len() && 0 <= byte < 256 ==> (
        #[trigger] dfa_successors(dfa)[state][byte]) < dfa_successors(dfa).len()
}

/// The state in which an automaton gives up.
pub const SINK_STATE: u32 = 0;

/// What begins with bytes that lead to the sink state does not match.
pub open spec fn dfa_gives_up_in_sink(dfa: DFA) -> bool {
    forall|bytes: Seq<u8>, n: int|
        0 <= n <= bytes.len() && #[trigger] dfa_run(dfa, bytes.take(n)) == SINK_STATE
            ==> !#[trigger] dfa_matches(dfa, bytes)
}

/// Calls [`LevenshteinAutomatonBuilder::new`] and [`LevenshteinAutomatonBuilder::build_dfa`].
///
/// Claims that the automaton is complete, that nothing matches any more once the sink state was
/// reached, that a UTF-8 text matches exactly where its edit distance is not greater than
/// `max_distance`, and that what matches depends on the arguments alone.
#[verifier::external_body]
fn build_dfa(max_distance: u8, transposition_cost_one: bool, query: &str) -> (r: DFA)
    requires
        max_distance <= 2,
    ensures
        dfa_is_complete(r),
        dfa_gives_up_in_sink(r),
        forall|bytes: Seq<u8>|
            vstd::utf8::valid_utf8(bytes) ==> (#[trigger] dfa_matches(r, bytes) <==> edit_distance(
                query@,
                vstd::utf8::decode_utf8(bytes),
                transposition_cost_one,
            ) <= max_distance),
        forall|bytes: Seq<u8>| #[trigger]
            dfa_matches(r, bytes) == dfa_accepts(
                max_distance,
                transposition_cost_one,
                query@,
                bytes,
            ),
{
    LevenshteinAutomatonBuilder::new(max_distance, transposition_cost_one).build_dfa(query)
}

/// Calls [`LevenshteinAutomatonBuilder::new`] and
/// [`LevenshteinAutomatonBuilder::build_prefix_dfa`].
///
/// Claims that the automaton is complete, that nothing matches any more once the sink state was
/// reached, that a UTF-8 text matches where it begins with `query` or its edit distance is not
/// greater than `max_distance`, that it matches only where that of one of its beginnings is not,
/// and that what matches depends on the arguments alone. The automaton may stop at a beginning
/// before it has seen the closest one, or give up on a text of which a beginning is close enough;
/// which of the texts in between match is left unsaid.
#[verifier::external_body]
fn build_prefix_dfa(max_distance: u8, transposition_cost_one: bool, query: &str) -> (r: DFA)
    requires
        max_distance <= 2,
    ensures
        dfa_is_complete(r),
        dfa_gives_up_in_sink(r),
        forall|bytes: Seq<u8>| #[trigger]
            dfa_matches(r, bytes) == accepts(
                (Pattern {
                    distance: max_distance,
                    transpositions: transposition_cost_one,
                    prefix: true,
                    text: query@,
                }),
                bytes,
            ),
        forall|bytes: Seq<u8>| #[trigger]
            dfa_matches(r, bytes) == prefix_dfa_accepts(
                max_distance,
                transposition_cost_one,
                query@,
                bytes,
            ),
{
    LevenshteinAutomatonBuilder::new(max_distance, transposition_cost_one).build_prefix_dfa(query)
}

/// Calls [`DFA::initial_state`], which returns the initial state.
#[verifier::external_body]
fn initial_state(dfa: &DFA) -> (r: u32)
    ensures
        r == dfa_start(*dfa),
{
    dfa.initial_state()
}

/// Calls [`DFA::transition`], which returns the successor of a state for a byte. It panics on a
/// number that is not a state.
#[verifier::external_body]
fn transition(dfa: &DFA, state: u32, byte: u8) -> (r: u32)
    requires
        state < dfa_successors(*dfa).len(),
    ensures
        r == dfa_successors(*dfa)[state as int][byte as int],
{
    dfa.transition(state, byte)
}

/// Calls [`DFA::distance`], which returns the distance that a state stands for. It panics on a
/// number that is not a state.
#[verifier::external_body]
fn distance(dfa: &DFA, state: u32) -> (r: StateDistance)
    requires
        state < dfa_distances(*dfa).len(),
    ensures
        r == dfa_distances(*dfa)[state as int],
{
    match dfa.distance(state) {
        Distance::Exact(distance) => StateDistance::Exact(distance),
        Distance::AtLeast(distance) => StateDistance::AtLeast(distance),
    }
}

/// Reading bytes leads from state to state.
proof fn run_is_a_state(dfa: DFA, bytes: Seq<u8>)
    requires
        dfa_is_complete(dfa),
    ensures
        dfa_run(dfa, bytes) < dfa_successors(dfa).len(),
    decreases bytes.len(),
{
    if bytes.len() > 0 {
        run_is_a_state(dfa, bytes.drop_last());
        let state = dfa_run(dfa, bytes.drop_last()) as int;
        assert(dfa_successors(dfa)[state][bytes.last() as int] < dfa_successors(dfa).len());
    }
}

/// An automaton that decides which byte strings a [`Pattern`] accepts.
pub struct DfaWrapper {
    dfa: DFA,
}

impl DfaWrapper {
    #[verifier::type_invariant]
    spec fn inv(self) -> bool {
        dfa_is_complete(self.dfa) && dfa_gives_up_in_sink(self.dfa)
    }

    /// The state after reading `bytes`.
    pub closed spec fn run(&self, bytes: Seq<u8>) -> u32 {
        dfa_run(self.dfa, bytes)
    }

    /// The automaton accepts `bytes`.
    pub closed spec fn matches_bytes(&self, bytes: Seq<u8>) -> bool {
        dfa_matches(self.dfa, bytes)
    }

    /// The number of states.
    pub closed spec fn num_states(&self) -> nat {
        dfa_successors(self.dfa).len()
    }

    /// A state is one in which the bytes that were read are accepted.
    pub closed spec fn accepting(&self, state: u32) -> bool {
        dfa_distances(self.dfa)[state as int] is Exact
    }

    /// The successor of a state for a byte.
    pub closed spec fn successor(&self, state: u32, byte: u8) -> u32 {
        dfa_successors(self.dfa)[state as int][byte as int]
    }

    /// The automaton accepts what the pattern accepts.
    pub open spec fn decides(&self, pattern: Pattern) -> bool {
        forall|bytes: Seq<u8>| #[trigger] self.matches_bytes(bytes) == accepts(pattern, bytes)
    }

    /// Builds the automaton for the texts within `max_distance` edits of `query`, or, where
    /// `prefix` is set, for those of which a beginning is.
    pub fn new(max_distance: u8, transposition_cost_one: bool, prefix: bool, query: &str) -> (r:
        DfaWrapper)
        requires
            max_distance <= 2,
        ensures
            r.decides(
                (Pattern {
                    distance: max_distance,
                    transpositions: transposition_cost_one,
                    prefix,
                    text: query@,
                }),
            ),
    {
        let dfa = if prefix {
            build_prefix_dfa(max_distance, transposition_cost_one, query)
        } else {
            build_dfa(max_distance, transposition_cost_one, query)
        };
        DfaWrapper { dfa }
    }

    /// Returns the initial state.
    pub fn start(&self) -> (r: u32)
        ensures
            r == self.run(Seq::empty()),
            r < self.num_states(),
    {
        proof {
            use_type_invariant(self);
        }
        initial_state(&self.dfa)
    }

    /// Returns whether the bytes that led to a state are accepted.
    pub fn is_match(&self, state: &u32) -> (r: bool)
        requires
            *state < self.num_states(),
        ensures
            r == self.accepting(*state),
            forall|bytes: Seq<u8>|
                #[trigger] self.run(bytes) == *state ==> r == self.matches_bytes(bytes),
    {
        proof {
            use_type_invariant(self);
        }
        match distance(&self.dfa, *state) {
            StateDistance::Exact(_) => true,
            StateDistance::AtLeast(_) => false,
        }
    }

    /// Returns whether the bytes that led to a state may still be the beginning of something that
    /// is accepted.
    pub fn can_match(&self, state: &u32) -> (r: bool)
        ensures
            r == (*state != SINK_STATE),
            !r ==> forall|bytes: Seq<u8>, n: int|
                0 <= n <= bytes.len() && #[trigger] self.run(bytes.take(n)) == *state
                    ==> !#[trigger] self.matches_bytes(bytes),
    {
        proof {
            use_type_invariant(self);
        }
        *state != SINK_STATE
    }

    /// Returns the successor of a state for a byte.
    pub fn accept(&self, state: &u32, byte: u8) -> (r: u32)
        requires
            *state < self.num_states(),
        ensures
            r == self.successor(*state, byte),
            r < self.num_states(),
            forall|bytes: Seq<u8>|
                #[trigger] self.run(bytes) == *state ==> self.run(bytes.push(byte)) == r,
    {
        proof {
            use_type_invariant(self);
            assert forall|bytes: Seq<u8>| #[trigger] self.run(bytes) == *state implies self.run(
                bytes.push(byte),
            ) == self.successor(*state, byte) by {
                assert(bytes.push(byte).drop_last() =~= bytes);
            }
            assert(dfa_successors(self.dfa)[*state as int][byte as int] < dfa_successors(
                self.dfa,
            ).len());
        }
        transition(&self.dfa, *state, byte)
    }
}

/// Returns whether an automaton accepts a byte string.
pub fn automaton_matches(automaton: &DfaWrapper, bytes: &[u8]) -> (r: bool)
    ensures
        r == automaton.matches_bytes(bytes@),
{
    let mut state: u32 = automaton.start();
    let mut i: usize = 0;
    assert(bytes@.take(0) =~= Seq::empty());
    while i < bytes.len()
        invariant
            i <= bytes.len(),
            state < automaton.num_states(),
            state == automaton.run(bytes@.take(i as int)),
        decreases bytes.len() - i,
    {
        let ghost before = bytes@.take(i as int);
        state = automaton.accept(&state, bytes[i]);
        assert(bytes@.take(i + 1) =~= before.push(bytes@[i as int]));
        if !automaton.can_match(&state) {
            assert(automaton.run(bytes@.take(i + 1)) == state);
            return false;
        }
        i += 1;
    }
    assert(bytes@.take(i as int) =~= bytes@);
    automaton.is_match(&state)
}

/// Calls [`std::str::from_utf8`], which returns the text that the bytes encode, and an error
/// exactly where they are not UTF-8.
#[verifier::external_body]
pub(crate) fn utf8_text(bytes: &[u8]) -> (r: Option<&str>)
    ensures
        match r {
            Some(text) => vstd::utf8::valid_utf8(bytes@) && text@ == vstd::utf8::decode_utf8(
                bytes@,
            ),
            None => !vstd::utf8::valid_utf8(bytes@),
        },
{
    std::str::from_utf8(bytes).ok()
}

} // verus!
