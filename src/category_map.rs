use vstd::prelude::*;

use crate::model::Category;
use crate::tokens::compare_tokens;

verus! {

/// Token to display name, built from a list of categories in order: a later
/// category replaces an earlier one with the same token.
pub open spec fn category_names(s: Seq<Category>) -> Map<Seq<char>, Seq<char>>
    decreases s.len(),
{
    if s.len() == 0 {
        Map::empty()
    } else {
        category_names(s.drop_last()).insert(s.last().token@, s.last().name@)
    }
}

/// Categories after position `n` that do not carry `key` leave its entry as
/// the first `n` made it.
proof fn lemma_names_suffix(s: Seq<Category>, n: int, key: Seq<char>)
    requires
        0 <= n <= s.len(),
        forall|k: int| n <= k < s.len() ==> (#[trigger] s[k]).token@ != key,
    ensures
        category_names(s).contains_key(key) == category_names(s.take(n)).contains_key(key),
        category_names(s).contains_key(key) ==> category_names(s)[key] == category_names(
            s.take(n),
        )[key],
    decreases s.len() - n,
{
    if n < s.len() {
        let p = s.drop_last();
        assert(s.last() == s[s.len() - 1]);
        assert forall|k: int| n <= k < p.len() implies (#[trigger] p[k]).token@ != key by {
            assert(p[k] == s[k]);
        }
        lemma_names_suffix(p, n, key);
        assert(p.take(n) =~= s.take(n));
    } else {
        assert(s.take(n) =~= s);
    }
}

/// Display names of categories, looked up by token.
#[derive(Clone, Debug)]
pub struct CategoryMap {
    entries: Vec<Category>,
}

impl View for CategoryMap {
    type V = Map<Seq<char>, Seq<char>>;

    closed spec fn view(&self) -> Map<Seq<char>, Seq<char>> {
        category_names(self.entries@)
    }
}

impl CategoryMap {
    pub fn new() -> (r: Self)
        ensures
            r@ == Map::<Seq<char>, Seq<char>>::empty(),
    {
        CategoryMap { entries: Vec::new() }
    }

    /// Maps `token` to `name`, replacing any name it had.
    pub fn insert(&mut self, token: String, name: String)
        ensures
            final(self)@ == old(self)@.insert(token@, name@),
    {
        let ghost s = self.entries@;
        self.entries.push(Category { token, name });
        assert(self.entries@.drop_last() =~= s);
    }

    /// The display name for `token`, if the map has one.
    pub fn get(&self, token: &str) -> (r: Option<&String>)
        ensures
            match r {
                Some(v) => self@.contains_key(token@) && self@[token@] == v@,
                None => !self@.contains_key(token@),
            },
    {
        let ghost s = self.entries@;
        let mut i: usize = self.entries.len();
        while i > 0
            invariant
                s == self.entries@,
                i <= s.len(),
                forall|k: int| i <= k < s.len() ==> (#[trigger] s[k]).token@ != token@,
            decreases i,
        {
            if compare_tokens(self.entries[i - 1].token.as_str(), token) == 0 {
                proof {
                    lemma_names_suffix(s, i as int, token@);
                    assert(s.take(i as int).drop_last() =~= s.take(i - 1));
                    assert(s.take(i as int).last() == s[i - 1]);
                }
                return Some(&self.entries[i - 1].name);
            }
            i = i - 1;
        }
        proof {
            lemma_names_suffix(s, 0, token@);
        }
        None
    }
}

} // verus!
