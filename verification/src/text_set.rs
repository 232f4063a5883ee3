//! A set of texts.

use crate::text::{
    ascending, keys_of, lemma_rank, lemma_rank_finds, lower_bound, rank, str_eq, text_less,
};
use vstd::prelude::*;

verus! {

/// Putting a new key at its rank keeps a row of keys ascending.
pub proof fn lemma_insert_ascending(keys: Seq<Seq<char>>, key: Seq<char>)
    requires
        ascending(keys),
        !keys.contains(key),
    ensures
        0 <= rank(keys, key) <= keys.len(),
        ascending(keys.insert(rank(keys, key), key)),
{
    let p = rank(keys, key);
    let longer = keys.insert(p, key);
    lemma_rank(keys, key, 0);
    lemma_rank_finds(keys, key);
    assert forall|i: int, j: int|
        #![trigger longer[i], longer[j]]
        0 <= i < j < longer.len() implies text_less(longer[i], longer[j]) by {
        let a = if i < p {
            i
        } else {
            i - 1
        };
        let b = if j < p {
            j
        } else {
            j - 1
        };
        if i != p && j != p {
            assert(text_less(keys[a], keys[b]));
        } else if i == p {
            assert(keys.contains(keys[b]));
            assert(keys[b] != key);
        } else {
            assert(text_less(keys[a], key));
        }
    }
}

/// A set of texts, kept as an ascending row.
pub struct TextSet {
    texts: Vec<String>,
}

impl View for TextSet {
    type V = Set<Seq<char>>;

    closed spec fn view(&self) -> Set<Seq<char>> {
        Set::new(|text: Seq<char>| keys_of(self.texts@).contains(text))
    }
}

impl TextSet {
    /// The validity of a set: its row is ascending.
    pub closed spec fn wf(&self) -> bool {
        ascending(keys_of(self.texts@))
    }

    /// The empty set.
    pub fn new() -> (set: TextSet)
        ensures
            set.wf(),
            set@ == Set::<Seq<char>>::empty(),
    {
        let set = TextSet { texts: Vec::new() };
        assert(set@ =~= Set::<Seq<char>>::empty());
        set
    }

    /// Whether the set holds `text`.
    pub fn contains(&self, text: &str) -> (found: bool)
        requires
            self.wf(),
        ensures
            found == self@.contains(text@),
    {
        let p = lower_bound(&self.texts, text);
        proof {
            lemma_rank_finds(keys_of(self.texts@), text@);
        }
        let found = p < self.texts.len() && str_eq(self.texts[p].as_str(), text);
        proof {
            if found {
                assert(keys_of(self.texts@)[p as int] == text@);
            }
        }
        found
    }

    /// Puts `text` into the set, and says whether it was new.
    pub fn insert(&mut self, text: &str) -> (added: bool)
        requires
            old(self).wf(),
        ensures
            final(self).wf(),
            final(self)@ == old(self)@.insert(text@),
            added == !old(self)@.contains(text@),
    {
        let ghost keys = keys_of(self.texts@);
        let p = lower_bound(&self.texts, text);
        proof {
            lemma_rank_finds(keys, text@);
        }
        if p < self.texts.len() && str_eq(self.texts[p].as_str(), text) {
            proof {
                assert(keys[p as int] == text@);
                assert(self@.insert(text@) =~= self@);
            }
            false
        } else {
            proof {
                lemma_insert_ascending(keys, text@);
            }
            self.texts.insert(p, text.to_owned());
            proof {
                let longer = keys_of(self.texts@);
                assert(longer =~= keys.insert(p as int, text@));
                assert forall|t: Seq<char>| longer.contains(t) <==> t == text@ || keys.contains(
                    t,
                ) by {
                    if longer.contains(t) {
                        let i = choose|i: int| 0 <= i < longer.len() && longer[i] == t;
                        if i < p {
                            assert(keys[i] == t);
                        } else if i > p {
                            assert(keys[i - 1] == t);
                        }
                    }
                    if keys.contains(t) {
                        let i = choose|i: int| 0 <= i < keys.len() && keys[i] == t;
                        if i < p {
                            assert(longer[i] == t);
                        } else {
                            assert(longer[i + 1] == t);
                        }
                    }
                    if t == text@ {
                        assert(longer[p as int] == t);
                    }
                }
                assert(self@ =~= old(self)@.insert(text@));
            }
            true
        }
    }
}

} // verus!
