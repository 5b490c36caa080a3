use tantivy_query::levenshtein::{automaton_matches, DfaWrapper, SINK_STATE};

/// The edit distance by its recurrence, as a table.
fn distance(left: &[char], right: &[char], transpositions: bool) -> usize {
    let mut table = vec![vec![0usize; right.len() + 1]; left.len() + 1];
    for i in 0..=left.len() {
        for j in 0..=right.len() {
            table[i][j] = if i == 0 {
                j
            } else if j == 0 {
                i
            } else {
                let replaced = table[i - 1][j - 1] + usize::from(left[i - 1] != right[j - 1]);
                let mut best = replaced.min(table[i - 1][j] + 1).min(table[i][j - 1] + 1);
                if transpositions
                    && i >= 2
                    && j >= 2
                    && left[i - 1] == right[j - 2]
                    && left[i - 2] == right[j - 1]
                {
                    best = best.min(table[i - 2][j - 2] + 1);
                }
                best
            };
        }
    }
    table[left.len()][right.len()]
}

fn texts(alphabet: &[char], max_len: usize) -> Vec<Vec<char>> {
    let mut all: Vec<Vec<char>> = vec![Vec::new()];
    let mut last = all.clone();
    for _ in 0..max_len {
        let mut longer = Vec::new();
        for text in &last {
            for c in alphabet {
                let mut next = text.clone();
                next.push(*c);
                longer.push(next);
            }
        }
        all.extend(longer.iter().cloned());
        last = longer;
    }
    all
}

fn check_distances(queries: &[Vec<char>], candidates: &[Vec<char>]) {
    for query in queries {
        let query_text: String = query.iter().collect();
        for max_distance in 0..=2u8 {
            for transpositions in [false, true] {
                let automaton = DfaWrapper::new(max_distance, transpositions, false, &query_text);
                for candidate in candidates {
                    let text: String = candidate.iter().collect();
                    assert_eq!(
                        automaton_matches(&automaton, text.as_bytes()),
                        distance(query, candidate, transpositions) <= max_distance as usize,
                        "{query_text:?} {max_distance} {transpositions} {text:?}"
                    );
                }
            }
        }
    }
}

#[test]
fn automaton_accepts_the_texts_within_the_distance() {
    let all = texts(&['a', 'b'], 5);
    check_distances(&texts(&['a', 'b'], 4), &all);
}

#[test]
fn automaton_counts_characters_and_not_bytes() {
    let all = texts(&['a', 'é', '日', '\u{10348}'], 3);
    check_distances(&all, &all);
}

#[test]
fn automaton_accepts_texts_of_more_letters() {
    let all = texts(&['a', 'b', 'c'], 4);
    check_distances(&texts(&['a', 'b', 'c'], 3), &all);
}

#[test]
fn prefix_automaton_keeps_within_its_bounds() {
    let queries = texts(&['a', 'b', 'c'], 3);
    let candidates = texts(&['a', 'b', 'c', 'é'], 4);
    for query in &queries {
        let query_text: String = query.iter().collect();
        for max_distance in 0..=2u8 {
            for transpositions in [false, true] {
                let automaton = DfaWrapper::new(max_distance, transpositions, true, &query_text);
                for candidate in &candidates {
                    let text: String = candidate.iter().collect();
                    let accepted = automaton_matches(&automaton, text.as_bytes());
                    let limit = max_distance as usize;
                    if distance(query, candidate, transpositions) <= limit
                        || text.starts_with(&query_text)
                    {
                        assert!(accepted, "{query_text:?} {max_distance} {text:?}");
                    }
                    let some_start = (0..=candidate.len())
                        .any(|n| distance(query, &candidate[..n], transpositions) <= limit);
                    if !some_start {
                        assert!(!accepted, "{query_text:?} {max_distance} {text:?}");
                    }
                }
            }
        }
    }
}

#[test]
fn prefix_automaton_may_give_up_behind_a_close_beginning() {
    let automaton = DfaWrapper::new(2, false, true, "acb");
    // "b" alone is within two edits, and is accepted, but the automaton does not stop there.
    assert!(automaton_matches(&automaton, b"b"));
    assert!(!automaton_matches(&automaton, b"bz"));
}

#[test]
fn bytes_that_are_no_text_are_read() {
    let automaton = DfaWrapper::new(1, true, false, "rust");
    assert!(!automaton_matches(&automaton, &[0xff, 0xfe]));
    assert!(!automaton_matches(&automaton, b"rus\xff"));
}

#[test]
fn nothing_is_accepted_behind_the_sink_state() {
    let automaton = DfaWrapper::new(1, true, false, "ab");
    let mut state = automaton.start();
    assert!(automaton.can_match(&state));
    assert!(!automaton.is_match(&state));
    for byte in b"zzzz" {
        state = automaton.accept(&state, *byte);
    }
    assert_eq!(SINK_STATE, levenshtein_automata::SINK_STATE);
    assert_eq!(state, SINK_STATE);
    assert!(!automaton.can_match(&state));
    for byte in 0..=255u8 {
        assert!(!automaton.is_match(&automaton.accept(&state, byte)));
    }
}
