use vstd::prelude::*;

verus! {

/// The last component of a path, as `std::path::Path::file_name` takes it
/// (none for a path that ends in `..` or has no normal component).
pub uninterp spec fn path_file_name(path: Seq<char>) -> Option<Seq<char>>;

/// Calls `std::path::Path::file_name` on the path that `path` spells. Its
/// result is named `path_file_name`: Verus is told only that the call gives
/// the same answer for the same text, not what that answer is.
#[verifier::external_body]
pub fn file_name(path: &String) -> (r: Option<String>)
    ensures
        match r {
            Some(name) => path_file_name(path@) == Some(name@),
            None => path_file_name(path@) is None,
        },
{
    match std::path::Path::new(path.as_str()).file_name() {
        Some(name) => Some(name.to_string_lossy().into_owned()),
        None => None,
    }
}

/// The map that inserting `pairs` in order into an empty map builds: a
/// later pair replaces an earlier one with the same key.
pub open spec fn pairs_map(pairs: Seq<(Seq<char>, Seq<char>)>) -> Map<Seq<char>, Seq<char>>
    decreases pairs.len(),
{
    if pairs.len() == 0 {
        Map::empty()
    } else {
        pairs_map(pairs.drop_last()).insert(pairs.last().0, pairs.last().1)
    }
}

/// The text views of a sequence of string pairs.
pub open spec fn pair_views(pairs: Seq<(String, String)>) -> Seq<(Seq<char>, Seq<char>)> {
    pairs.map_values(|p: (String, String)| (p.0@, p.1@))
}

/// The names of a device's minor nodes' links, each mapped to the path of the link.
#[derive(Clone, Debug)]
pub struct DevicePaths {
    entries: Vec<(String, String)>,
}

impl View for DevicePaths {
    type V = Map<Seq<char>, Seq<char>>;

    closed spec fn view(&self) -> Map<Seq<char>, Seq<char>> {
        pairs_map(pair_views(self.entries@))
    }
}

proof fn lemma_pairs_map_take(pairs: Seq<(Seq<char>, Seq<char>)>, i: int, key: Seq<char>)
    requires
        0 <= i <= pairs.len(),
        forall|j: int| i <= j < pairs.len() ==> #[trigger] pairs[j].0 != key,
    ensures
        pairs_map(pairs).dom().contains(key) == pairs_map(pairs.take(i)).dom().contains(key),
        pairs_map(pairs)[key] == pairs_map(pairs.take(i))[key],
    decreases pairs.len() - i,
{
    if i < pairs.len() {
        lemma_pairs_map_take(pairs, i + 1, key);
        let t = pairs.take(i + 1);
        assert(t.drop_last() =~= pairs.take(i));
        assert(t.last() == pairs[i]);
    } else {
        assert(pairs.take(i) =~= pairs);
    }
}

impl DevicePaths {
    /// No paths.
    pub fn new() -> (r: Self)
        ensures
            r@ == Map::<Seq<char>, Seq<char>>::empty(),
    {
        DevicePaths { entries: Vec::new() }
    }

    /// Maps `name` to `path`, replacing what it mapped to before.
    pub fn insert(&mut self, name: String, path: String)
        ensures
            final(self)@ == old(self)@.insert(name@, path@),
    {
        let ghost old_pairs = pair_views(self.entries@);
        self.entries.push((name, path));
        assert(pair_views(self.entries@).drop_last() =~= old_pairs);
    }

    /// The path that `name` maps to.
    pub fn get(&self, name: &String) -> (r: Option<&String>)
        ensures
            match r {
                Some(p) => self@.dom().contains(name@) && self@[name@] == p@,
                None => !self@.dom().contains(name@),
            },
    {
        let ghost pv = pair_views(self.entries@);
        let mut i: usize = self.entries.len();
        while i > 0
            invariant
                i <= self.entries@.len(),
                pv == pair_views(self.entries@),
                forall|j: int| i <= j < pv.len() ==> #[trigger] pv[j].0 != name@,
            decreases i,
        {
            if self.entries[i - 1].0 == *name {
                proof {
                    lemma_pairs_map_take(pv, i as int, name@);
                    let t = pv.take(i as int);
                    assert(t.last() == pv[i - 1]);
                }
                return Some(&self.entries[i - 1].1);
            }
            i = i - 1;
        }
        proof {
            lemma_pairs_map_take(pv, 0, name@);
            assert(pv.take(0) =~= Seq::<(Seq<char>, Seq<char>)>::empty());
        }
        None
    }
}

/// What a read gives back of a write: after `name` is mapped to `path`, looking
/// `name` up gives `path`, and looking up any other name gives what it gave before.
pub proof fn lemma_lookup_after_insert(
    before: Map<Seq<char>, Seq<char>>,
    name: Seq<char>,
    path: Seq<char>,
    other: Seq<char>,
)
    requires
        other != name,
    ensures
        before.insert(name, path).dom().contains(name),
        before.insert(name, path)[name] == path,
        before.insert(name, path).dom().contains(other) == before.dom().contains(other),
        before.insert(name, path)[other] == before[other],
{
}

} // verus!
