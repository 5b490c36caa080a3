//! The tokenizers that are known by name.

use vstd::prelude::*;
use crate::bytes;

verus! {

/// The names under which tokenizers are registered.
///
/// The tokenizers themselves are run by the caller, who hands over tokens.
#[derive(Debug)]
pub struct TokenizerManager {
    names: Vec<String>,
}

impl View for TokenizerManager {
    type V = Seq<Seq<char>>;

    closed spec fn view(&self) -> Seq<Seq<char>> {
        self.names@.map_values(|name: String| name@)
    }
}

impl Default for TokenizerManager {
    fn default() -> (r: TokenizerManager)
        ensures
            r@ == seq!["raw"@, "default"@, "en_stem"@, "whitespace"@],
    {
        let mut r = TokenizerManager::new();
        r.register("raw");
        r.register("default");
        r.register("en_stem");
        r.register("whitespace");
        assert(r@ =~= seq!["raw"@, "default"@, "en_stem"@, "whitespace"@]);
        r
    }
}

impl TokenizerManager {
    /// No tokenizers.
    pub fn new() -> (r: TokenizerManager)
        ensures
            r@ == Seq::<Seq<char>>::empty(),
    {
        let r = TokenizerManager { names: Vec::new() };
        assert(r@ =~= Seq::empty());
        r
    }

    /// Registers a name.
    pub fn register(&mut self, name: &str)
        ensures
            final(self)@ == old(self)@.push(name@),
    {
        let ghost before = self@;
        self.names.push(name.to_owned());
        assert(self@ =~= before.push(name@));
    }

    /// Returns whether a name is registered.
    pub fn has(&self, name: &str) -> (r: bool)
        ensures
            r == self@.contains(name@),
    {
        let mut i: usize = 0;
        while i < self.names.len()
            invariant
                i <= self.names.len(),
                forall|j: int| 0 <= j < i ==> #[trigger] self@[j] != name@,
            decreases self.names.len() - i,
        {
            assert(self@[i as int] == self.names@[i as int]@);
            if bytes::bytes_equal(self.names[i].as_str().as_bytes(), name.as_bytes()) {
                proof {
                    vstd::utf8::encode_utf8_decode_utf8(name@);
                    vstd::utf8::encode_utf8_decode_utf8(self.names@[i as int]@);
                }
                return true;
            }
            i += 1;
        }
        false
    }
}

} // verus!
