//! Storage options: string keys mapped to string values.
use vstd::prelude::*;
use crate::text::{copy_str, str_eq};

verus! {

/// The map that a list of key/value pairs denotes: a later pair overrides an
/// earlier pair with the same key.
pub open spec fn options_map(s: Seq<(String, String)>) -> Map<Seq<char>, Seq<char>>
    decreases s.len(),
{
    if s.len() == 0 {
        Map::empty()
    } else {
        options_map(s.drop_last()).insert(s.last().0@, s.last().1@)
    }
}

/// Backend options given as `KEY=VALUE` pairs.
pub struct StorageOptions {
    pub entries: Vec<(String, String)>,
}

impl View for StorageOptions {
    type V = Map<Seq<char>, Seq<char>>;

    open spec fn view(&self) -> Map<Seq<char>, Seq<char>> {
        options_map(self.entries@)
    }
}

/// Looking a key up from the end of the pairs finds what the map holds.
proof fn lemma_lookup_from_end(s: Seq<(String, String)>, key: Seq<char>, i: int)
    requires
        0 <= i <= s.len(),
        forall|j: int| i <= j < s.len() ==> (#[trigger] s[j]).0@ != key,
    ensures
        options_map(s).contains_key(key) == options_map(s.take(i)).contains_key(key),
        options_map(s).contains_key(key) ==> options_map(s)[key] == options_map(s.take(i))[key],
    decreases s.len() - i,
{
    if i < s.len() {
        lemma_lookup_from_end(s, key, i + 1);
        assert(s.take(i + 1).drop_last() =~= s.take(i));
    } else {
        assert(s.take(i) =~= s);
    }
}

impl StorageOptions {
    /// No options.
    pub fn new() -> (r: Self)
        ensures
            r@ == Map::<Seq<char>, Seq<char>>::empty(),
    {
        StorageOptions { entries: Vec::new() }
    }

    /// Sets `key` to `value`, replacing any earlier value.
    pub fn insert(&mut self, key: String, value: String)
        ensures
            final(self)@ == old(self)@.insert(key@, value@),
    {
        self.entries.push((key, value));
        assert(self.entries@.drop_last() == old(self).entries@);
    }

    /// The value of `key`, if it is set.
    pub fn get(&self, key: &str) -> (r: Option<String>)
        ensures
            r is Some <==> self@.contains_key(key@),
            r matches Some(v) ==> v@ == self@[key@],
    {
        let mut i = self.entries.len();
        while i > 0
            invariant
                i <= self.entries@.len(),
                forall|j: int| i <= j < self.entries@.len() ==> (#[trigger] self.entries@[j]).0@
                    != key@,
            decreases i,
        {
            let k = &self.entries[i - 1].0;
            if str_eq(k.as_str(), key) {
                proof {
                    lemma_lookup_from_end(self.entries@, key@, i as int);
                    assert(self.entries@.take(i as int).drop_last() =~= self.entries@.take(
                        i - 1,
                    ));
                }
                let v = &self.entries[i - 1].1;
                return Some(copy_str(v.as_str()));
            }
            i = i - 1;
        }
        proof {
            lemma_lookup_from_end(self.entries@, key@, 0);
        }
        None
    }
}

/// The value of the first of `keys` that is set to a non-empty value.
pub open spec fn first_nonempty(options: Map<Seq<char>, Seq<char>>, keys: Seq<Seq<char>>) -> Option<
    Seq<char>,
>
    decreases keys.len(),
{
    if keys.len() == 0 {
        None
    } else if options.contains_key(keys[0]) && options[keys[0]].len() > 0 {
        Some(options[keys[0]])
    } else {
        first_nonempty(options, keys.drop_first())
    }
}

/// The value of the first of `keys` that is set to a non-empty value.
pub fn option_value(options: &StorageOptions, keys: &[&str]) -> (r: Option<String>)
    ensures
        r matches Some(v) ==> first_nonempty(options@, keys@.map_values(|k: &str| k@)) == Some(
            v@,
        ),
        r is None ==> first_nonempty(options@, keys@.map_values(|k: &str| k@)) is None,
{
    let ghost all = keys@.map_values(|k: &str| k@);
    let mut i: usize = 0;
    assert(all.skip(0) =~= all);
    while i < keys.len()
        invariant
            i <= keys@.len(),
            all == keys@.map_values(|k: &str| k@),
            first_nonempty(options@, all) == first_nonempty(options@, all.skip(i as int)),
        decreases keys@.len() - i,
    {
        let found = options.get(keys[i]);
        assert(all.skip(i as int)[0] == keys@[i as int]@);
        assert(all.skip(i as int).drop_first() =~= all.skip(i + 1));
        match found {
            Some(v) => {
                if !v.as_str().is_empty() {
                    return Some(v);
                }
            },
            None => {},
        }
        i = i + 1;
    }
    None
}

} // verus!
