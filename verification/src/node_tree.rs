//! The lookup tree: a trie over characters whose every node carries the
//! rendering of the path that leads to it.
//!
//! A tree is seen from outside as a [`Table`]: the map from each path that can
//! be walked from the root to the rendering stored where the path ends. The
//! empty path is always walkable, and so is every prefix of a walkable path.

use vstd::prelude::*;
use crate::text::chars_of;

verus! {

/// A map from paths to renderings.
pub type Table = Map<Seq<char>, Seq<char>>;

/// The entries of `m` that lie below the one-character path `c`, each named
/// by what remains of its path after `c`.
pub open spec fn subtable(m: Table, c: char) -> Table {
    Map::new(|p: Seq<char>| m.dom().contains(seq![c] + p), |p: Seq<char>| m[seq![c] + p])
}

/// The table of a tree that has a root and nothing else: the empty path,
/// rendered as `output`.
pub open spec fn root_only(output: Seq<char>) -> Table {
    map![Seq::<char>::empty() => output]
}

/// `m` with the path `key` rendered as `output`. The prefixes of `key` that
/// `m` lacks come with it, each with an empty rendering; whatever else `m`
/// holds stays as it is.
pub open spec fn with_entry(m: Table, key: Seq<char>, output: Seq<char>) -> Table {
    Map::new(
        |p: Seq<char>| m.dom().contains(p) || p.is_prefix_of(key),
        |p: Seq<char>|
            if p == key {
                output
            } else if m.dom().contains(p) {
                m[p]
            } else {
                Seq::<char>::empty()
            },
    )
}

/// The table that a list of entries builds: a root with an empty rendering,
/// to which the entries are added in their order, a later one overriding an
/// earlier one for the same path.
pub open spec fn table_of(entries: Seq<(&'static str, &'static str)>) -> Table
    decreases entries.len(),
{
    if entries.len() == 0 {
        root_only(Seq::<char>::empty())
    } else {
        with_entry(table_of(entries.drop_last()), entries.last().0@, entries.last().1@)
    }
}

/// With every path of `m`, `m` holds each of its prefixes.
pub open spec fn prefix_closed(m: Table) -> bool {
    forall|p: Seq<char>, n: int|
        #![trigger m.dom().contains(p), p.take(n)]
        m.dom().contains(p) && 0 <= n <= p.len() ==> m.dom().contains(p.take(n))
}

/// A table keeps holding the empty path, and the prefixes of its paths, when
/// it is given an entry.
pub proof fn lemma_with_entry_is_prefix_closed(m: Table, key: Seq<char>, output: Seq<char>)
    requires
        m.dom().contains(Seq::<char>::empty()),
        prefix_closed(m),
    ensures
        with_entry(m, key, output).dom().contains(Seq::<char>::empty()),
        prefix_closed(with_entry(m, key, output)),
{
    let after = with_entry(m, key, output);
    assert forall|p: Seq<char>, n: int|
        #![trigger after.dom().contains(p), p.take(n)]
        after.dom().contains(p) && 0 <= n <= p.len() implies after.dom().contains(p.take(n)) by {
        if m.dom().contains(p) {
            assert(m.dom().contains(p.take(n)));
        } else {
            assert(p.is_prefix_of(key));
            assert(p.take(n) =~= key.subrange(0, n));
            assert(p.take(n).is_prefix_of(key));
        }
    }
}

/// The table that a list of entries builds holds the empty path, and with
/// every path each of its prefixes.
pub proof fn lemma_table_of_is_prefix_closed(entries: Seq<(&'static str, &'static str)>)
    ensures
        table_of(entries).dom().contains(Seq::<char>::empty()),
        prefix_closed(table_of(entries)),
    decreases entries.len(),
{
    if entries.len() == 0 {
        let m = root_only(Seq::<char>::empty());
        assert forall|p: Seq<char>, n: int|
            #![trigger m.dom().contains(p), p.take(n)]
            m.dom().contains(p) && 0 <= n <= p.len() implies m.dom().contains(p.take(n)) by {
            assert(p.take(n) =~= p);
        }
    } else {
        lemma_table_of_is_prefix_closed(entries.drop_last());
        lemma_with_entry_is_prefix_closed(
            table_of(entries.drop_last()),
            entries.last().0@,
            entries.last().1@,
        );
    }
}

/// The greatest `n`, at most `limit`, for which the first `n` characters of
/// `s` are a path of `m`; 0 where there is none.
pub open spec fn longest_match_upto(m: Table, s: Seq<char>, limit: nat) -> nat
    decreases limit,
{
    if limit == 0 {
        0
    } else if limit <= s.len() && m.dom().contains(s.take(limit as int)) {
        limit
    } else {
        longest_match_upto(m, s, (limit - 1) as nat)
    }
}

/// The length of the longest prefix of `s` that is a path of `m`.
pub open spec fn longest_match(m: Table, s: Seq<char>) -> nat {
    longest_match_upto(m, s, s.len())
}

/// `longest_match` names a prefix that is at most as long as `s`, that `m`
/// holds unless it is empty, and beyond which `m` holds no prefix of `s`: no
/// shorter match is preferred where a longer one exists.
pub proof fn lemma_longest_match_is_maximal(m: Table, s: Seq<char>)
    ensures
        longest_match(m, s) <= s.len(),
        longest_match(m, s) > 0 ==> m.dom().contains(s.take(longest_match(m, s) as int)),
        forall|n: int|
            longest_match(m, s) < n <= s.len() ==> !m.dom().contains(#[trigger] s.take(n)),
{
    lemma_longest_match_upto(m, s, s.len());
}

proof fn lemma_longest_match_upto(m: Table, s: Seq<char>, limit: nat)
    requires
        limit <= s.len(),
    ensures
        longest_match_upto(m, s, limit) <= limit,
        longest_match_upto(m, s, limit) > 0 ==> m.dom().contains(
            s.take(longest_match_upto(m, s, limit) as int),
        ),
        forall|n: int|
            longest_match_upto(m, s, limit) < n <= limit ==> !m.dom().contains(
                #[trigger] s.take(n),
            ),
    decreases limit,
{
    if limit > 0 && !m.dom().contains(s.take(limit as int)) {
        lemma_longest_match_upto(m, s, (limit - 1) as nat);
    }
}

/// A length `k` whose prefix `m` holds, and beyond which `m` holds no prefix
/// of `s`, is the longest match.
pub proof fn lemma_longest_match_unique(m: Table, s: Seq<char>, k: nat)
    requires
        k <= s.len(),
        k > 0 ==> m.dom().contains(s.take(k as int)),
        forall|n: int| k < n <= s.len() ==> !m.dom().contains(#[trigger] s.take(n)),
    ensures
        longest_match(m, s) == k,
{
    lemma_longest_match_upto(m, s, s.len());
}

/// Of two sequences that begin alike, one is a prefix of the other, or
/// equal to it, where this holds of what follows their first element.
proof fn lemma_prefix_step(p: Seq<char>, key: Seq<char>)
    requires
        p.len() > 0,
        key.len() > 0,
        p[0] == key[0],
    ensures
        p.is_prefix_of(key) <==> p.drop_first().is_prefix_of(key.drop_first()),
        p == key <==> p.drop_first() == key.drop_first(),
{
    let q = p.drop_first();
    let rest = key.drop_first();
    if p.is_prefix_of(key) {
        assert forall|i: int| 0 <= i < q.len() implies q[i] == rest.subrange(
            0,
            q.len() as int,
        )[i] by {
            assert(q[i] == p[i + 1]);
            assert(p[i + 1] == key.subrange(0, p.len() as int)[i + 1]);
        }
        assert(q =~= rest.subrange(0, q.len() as int));
    }
    if q.is_prefix_of(rest) {
        assert forall|i: int| 0 <= i < p.len() implies p[i] == key.subrange(
            0,
            p.len() as int,
        )[i] by {
            if i > 0 {
                assert(p[i] == q[i - 1]);
                assert(q[i - 1] == rest.subrange(0, q.len() as int)[i - 1]);
            }
        }
        assert(p =~= key.subrange(0, p.len() as int));
    }
    if q == rest {
        assert forall|i: int| 0 <= i < p.len() implies p[i] == key[i] by {
            if i > 0 {
                assert(p[i] == q[i - 1]);
                assert(key[i] == rest[i - 1]);
            }
        }
        assert(p =~= key);
    }
}

/// One position in the tree: the rendering of the path walked so far, and
/// the transitions that lengthen it by one character.
#[derive(Debug)]
pub struct Node {
    transitions: Vec<(char, Node)>,
    output: &'static str,
}

/// The transition at index `i` of `ts` is the one for `c`.
spec fn slot(ts: Seq<(char, Node)>, c: char, i: int) -> bool {
    0 <= i < ts.len() && ts[i].0 == c
}

/// The index of a transition for `c` in `ts`, where there is one.
spec fn position(ts: Seq<(char, Node)>, c: char) -> int {
    choose|i: int| slot(ts, c, i)
}

/// The node that the transition for `c` in `ts` leads to.
spec fn lookup(ts: Seq<(char, Node)>, c: char) -> Option<Node> {
    if exists|i: int| slot(ts, c, i) {
        Some(ts[position(ts, c)].1)
    } else {
        None
    }
}

/// No two transitions of `ts` carry the same character.
spec fn distinct_keys(ts: Seq<(char, Node)>) -> bool {
    forall|i: int, j: int| #![trigger ts[i], ts[j]] 0 <= i < j < ts.len() ==> ts[i].0 != ts[j].0
}

/// The transitions of `ts` stand in ascending order of their characters.
spec fn ascending_keys(ts: Seq<(char, Node)>) -> bool {
    forall|i: int, j: int| #![trigger ts[i], ts[j]] 0 <= i < j < ts.len() ==> ts[i].0 < ts[j].0
}

/// Both are missing, or both are there and have the same view.
spec fn same_view(a: Option<Node>, b: Option<Node>) -> bool {
    match (a, b) {
        (Some(x), Some(y)) => x@ == y@,
        (None, None) => true,
        _ => false,
    }
}

/// Ascending keys are distinct.
proof fn lemma_ascending_is_distinct(ts: Seq<(char, Node)>)
    requires
        ascending_keys(ts),
    ensures
        distinct_keys(ts),
{
}

/// What follows the transition at index `k` among distinct keys has distinct
/// keys, none of them the character at `k`.
proof fn lemma_distinct_tail(ts: Seq<(char, Node)>, k: int)
    requires
        distinct_keys(ts),
        0 <= k < ts.len(),
    ensures
        distinct_keys(ts.skip(k + 1)),
        lookup(ts.skip(k + 1), ts[k].0) is None,
        ts.skip(k) == ts.skip(k + 1).insert(0, ts[k]),
{
    let tail = ts.skip(k + 1);
    assert forall|i: int, j: int| 0 <= i < j < tail.len() implies tail[i].0 != tail[j].0 by {
        assert(tail[i] == ts[k + 1 + i]);
        assert(tail[j] == ts[k + 1 + j]);
    }
    assert forall|i: int| 0 <= i < tail.len() implies (#[trigger] tail[i]).0 != ts[k].0 by {
        assert(tail[i] == ts[k + 1 + i]);
    }
    lemma_lookup_none(tail, ts[k].0);
    assert(ts.skip(k) =~= tail.insert(0, ts[k]));
}

/// Among distinct keys, the transition found for a character is the one
/// that carries it.
proof fn lemma_lookup_at(ts: Seq<(char, Node)>, i: int)
    requires
        distinct_keys(ts),
        0 <= i < ts.len(),
    ensures
        lookup(ts, ts[i].0) == Some(ts[i].1),
{
    let c = ts[i].0;
    assert(slot(ts, c, i));
    let j = position(ts, c);
    assert(ts[j].0 == ts[i].0);
    assert(i == j);
}

/// A character that no transition carries leads nowhere, and one that leads
/// somewhere is carried by a transition.
proof fn lemma_lookup_none(ts: Seq<(char, Node)>, c: char)
    ensures
        lookup(ts, c) is None <==> forall|i: int| 0 <= i < ts.len() ==> (#[trigger] ts[i]).0 != c,
        lookup(ts, c) is Some ==> slot(ts, c, position(ts, c)),
{
    if lookup(ts, c) is None {
        assert forall|i: int| 0 <= i < ts.len() implies (#[trigger] ts[i]).0 != c by {
            assert(!slot(ts, c, i));
        }
    }
}

/// A new transition, put anywhere among distinct keys that lack its
/// character, is found under that character and hides no other.
proof fn lemma_lookup_insert(ts: Seq<(char, Node)>, i: int, k: char, node: Node, c: char)
    requires
        distinct_keys(ts),
        lookup(ts, k) is None,
        0 <= i <= ts.len(),
    ensures
        distinct_keys(ts.insert(i, (k, node))),
        lookup(ts.insert(i, (k, node)), c) == if c == k {
            Some(node)
        } else {
            lookup(ts, c)
        },
{
    let longer = ts.insert(i, (k, node));
    lemma_lookup_none(ts, k);
    assert forall|a: int, b: int| 0 <= a < b < longer.len() implies longer[a].0 != longer[b].0 by {
        let a0 = if a < i { a } else { a - 1 };
        let b0 = if b < i { b } else { b - 1 };
        if a != i && b != i {
            assert(longer[a] == ts[a0]);
            assert(longer[b] == ts[b0]);
        } else if a == i {
            assert(longer[b] == ts[b0]);
        } else {
            assert(longer[a] == ts[a0]);
        }
    }
    if c == k {
        assert(longer[i] == (k, node));
        lemma_lookup_at(longer, i);
    } else {
        lemma_lookup_none(ts, c);
        lemma_lookup_none(longer, c);
        if lookup(ts, c) is Some {
            let j = position(ts, c);
            let j1 = if j < i { j } else { j + 1 };
            assert(longer[j1] == ts[j]);
            lemma_lookup_at(longer, j1);
        } else {
            assert forall|j: int| 0 <= j < longer.len() implies (#[trigger] longer[j]).0 != c by {
                if j != i {
                    let j0 = if j < i { j } else { j - 1 };
                    assert(longer[j] == ts[j0]);
                }
            }
        }
    }
}

/// A transition that is led to another node is found, under its
/// character, with that node, and hides no other.
proof fn lemma_lookup_update(ts: Seq<(char, Node)>, i: int, node: Node, c: char)
    requires
        distinct_keys(ts),
        0 <= i < ts.len(),
    ensures
        distinct_keys(ts.update(i, (ts[i].0, node))),
        lookup(ts.update(i, (ts[i].0, node)), c) == if c == ts[i].0 {
            Some(node)
        } else {
            lookup(ts, c)
        },
{
    let k = ts[i].0;
    let changed = ts.update(i, (k, node));
    assert forall|a: int, b: int| 0 <= a < b < changed.len() implies changed[a].0
        != changed[b].0 by {
        assert(changed[a].0 == ts[a].0);
        assert(changed[b].0 == ts[b].0);
    }
    if c == k {
        lemma_lookup_at(changed, i);
    } else {
        lemma_lookup_none(ts, c);
        lemma_lookup_none(changed, c);
        if lookup(ts, c) is Some {
            let j = position(ts, c);
            assert(changed[j] == ts[j]);
            lemma_lookup_at(changed, j);
        } else {
            assert forall|j: int| 0 <= j < changed.len() implies (#[trigger] changed[j]).0
                != c by {
                assert(changed[j].0 == ts[j].0);
            }
        }
    }
}

impl View for Node {
    type V = Table;

    /// The paths that can be walked from this node, each with the rendering
    /// of the node it reaches.
    closed spec fn view(&self) -> Table {
        Map::new(
            |p: Seq<char>| self.descend(p) is Some,
            |p: Seq<char>| self.descend(p).unwrap().output@,
        )
    }
}

impl Node {
    /// No two transitions of a node carry the same character, here and in
    /// every node below.
    pub closed spec fn well_formed(self) -> bool
        decreases self,
    {
        &&& distinct_keys(self.transitions@)
        &&& forall|i: int|
            0 <= i < self.transitions@.len() ==> (#[trigger] self.transitions@[i]).1.well_formed()
    }

    /// The transitions of a node stand in ascending order of their
    /// characters, here and in every node below.
    pub closed spec fn sorted(self) -> bool
        decreases self,
    {
        &&& ascending_keys(self.transitions@)
        &&& forall|i: int|
            0 <= i < self.transitions@.len() ==> (#[trigger] self.transitions@[i]).1.sorted()
    }

    /// The node that the transition for `c` leads to.
    pub closed spec fn child(self, c: char) -> Option<Node> {
        lookup(self.transitions@, c)
    }

    /// The node reached by taking the transitions for the characters of
    /// `path` in turn.
    pub closed spec fn descend(self, path: Seq<char>) -> Option<Node>
        decreases path.len(),
    {
        if path.len() == 0 {
            Some(self)
        } else {
            match self.child(path[0]) {
                Some(next) => next.descend(path.drop_first()),
                None => None,
            }
        }
    }

    /// A sorted tree is well formed.
    pub proof fn lemma_sorted_is_well_formed(self)
        requires
            self.sorted(),
        ensures
            self.well_formed(),
        decreases self,
    {
        assert forall|i: int| 0 <= i < self.transitions@.len() implies (
        #[trigger] self.transitions@[i]).1.well_formed() by {
            self.transitions@[i].1.lemma_sorted_is_well_formed();
        }
    }

    /// In a well-formed node the transition at index `i` is the one that its
    /// character selects.
    proof fn lemma_child_at(self, i: int)
        requires
            self.well_formed(),
            0 <= i < self.transitions@.len(),
        ensures
            self.child(self.transitions@[i].0) == Some(self.transitions@[i].1),
    {
        lemma_lookup_at(self.transitions@, i);
    }

    /// A child of a well-formed, or sorted, node is one too.
    proof fn lemma_child_inherits(self, c: char)
        requires
            self.child(c) is Some,
        ensures
            self.well_formed() ==> self.child(c).unwrap().well_formed(),
            self.sorted() ==> self.child(c).unwrap().sorted(),
    {
        lemma_lookup_none(self.transitions@, c);
        let i = position(self.transitions@, c);
        assert(self.child(c) == Some(self.transitions@[i].1));
    }

    /// Walking `path` and then `c` is walking `path` with `c` at its end.
    proof fn lemma_descend_push(self, path: Seq<char>, c: char)
        ensures
            self.descend(path.push(c)) == match self.descend(path) {
                Some(node) => node.child(c),
                None => None,
            },
        decreases path.len(),
    {
        let longer = path.push(c);
        if path.len() == 0 {
            assert(longer.drop_first() =~= Seq::<char>::empty());
            assert(longer[0] == c);
            match self.child(c) {
                Some(next) => {
                    assert(next.descend(Seq::<char>::empty()) == Some(next));
                },
                None => {},
            }
        } else {
            assert(longer[0] == path[0]);
            assert(longer.drop_first() =~= path.drop_first().push(c));
            match self.child(path[0]) {
                Some(next) => {
                    next.lemma_descend_push(path.drop_first(), c);
                },
                None => {},
            }
        }
    }

    /// Where a path can be walked, each of its prefixes can.
    proof fn lemma_descend_prefix(self, path: Seq<char>, n: int)
        requires
            self.descend(path) is Some,
            0 <= n <= path.len(),
        ensures
            self.descend(path.take(n)) is Some,
        decreases path.len(),
    {
        if n == 0 {
            assert(path.take(0).len() == 0);
        } else {
            let next = self.child(path[0]).unwrap();
            next.lemma_descend_prefix(path.drop_first(), n - 1);
            assert(path.take(n)[0] == path[0]);
            assert(path.take(n).drop_first() =~= path.drop_first().take(n - 1));
        }
    }

    /// The view of a tree holds the empty path, with the root's rendering,
    /// and every prefix of each path it holds.
    pub proof fn lemma_view_is_prefix_closed(self)
        ensures
            self@.dom().contains(Seq::<char>::empty()),
            prefix_closed(self@),
    {
        assert(self.descend(Seq::<char>::empty()) == Some(self));
        assert forall|p: Seq<char>, n: int|
            #![trigger self@.dom().contains(p), p.take(n)]
            self@.dom().contains(p) && 0 <= n <= p.len() implies self@.dom().contains(
            p.take(n),
        ) by {
            self.lemma_descend_prefix(p, n);
        }
    }

    /// The view of a child is the part of the parent's view below the
    /// child's character, and a character without a child begins no path.
    pub proof fn lemma_child_view(self, c: char)
        ensures
            match self.child(c) {
                Some(next) => next@ =~= subtable(self@, c),
                None => !self@.dom().contains(seq![c]),
            },
    {
        let one = seq![c];
        assert(one[0] == c);
        match self.child(c) {
            Some(next) => {
                assert forall|p: Seq<char>| #[trigger] self.descend(seq![c] + p) == next.descend(
                    p,
                ) by {
                    let q = seq![c] + p;
                    assert(q[0] == c);
                    assert(q.drop_first() =~= p);
                }
            },
            None => {},
        }
    }

    /// A path of one character or more is walked by taking the transition
    /// for its first character and walking the rest from there.
    proof fn lemma_view_step(self, p: Seq<char>)
        requires
            p.len() > 0,
        ensures
            self@.dom().contains(p) <==> (self.child(p[0]) is Some && self.child(
                p[0],
            ).unwrap()@.dom().contains(p.drop_first())),
            self@.dom().contains(p) ==> self@[p] == self.child(p[0]).unwrap()@[p.drop_first()],
    {
    }

    /// Two nodes with the same rendering, whose transitions for every
    /// character lead to children with the same views, have the same view.
    proof fn lemma_same_children_same_view(self, other: Node)
        requires
            self.output@ == other.output@,
            forall|c: char| same_view(#[trigger] self.child(c), other.child(c)),
        ensures
            self@ == other@,
    {
        assert forall|p: Seq<char>|
            (#[trigger] self@.dom().contains(p) <==> other@.dom().contains(p)) && (
            self@.dom().contains(p) ==> self@[p] == other@[p]) by {
            if p.len() > 0 {
                self.lemma_view_step(p);
                other.lemma_view_step(p);
                let _ = self.child(p[0]);
            }
        }
        assert(self@ =~= other@);
    }

    /// A node whose child for `c` gains the entry for `rest`, and that is
    /// otherwise as before, gains the entry for `c` followed by `rest`.
    proof fn lemma_insert_below(self, before: Node, c: char, rest: Seq<char>, output: Seq<char>)
        requires
            self.output@ == before.output@,
            forall|d: char| d != c ==> #[trigger] self.child(d) == before.child(d),
            self.child(c) is Some,
            self.child(c).unwrap()@ == with_entry(
                match before.child(c) {
                    Some(next) => next@,
                    None => root_only(Seq::<char>::empty()),
                },
                rest,
                output,
            ),
        ensures
            self@ == with_entry(before@, seq![c] + rest, output),
    {
        let key = seq![c] + rest;
        let after = with_entry(before@, key, output);
        assert(key[0] == c);
        assert(key.drop_first() =~= rest);
        assert(before.descend(Seq::<char>::empty()) == Some(before));
        assert forall|p: Seq<char>|
            (#[trigger] self@.dom().contains(p) <==> after.dom().contains(p)) && (
            self@.dom().contains(p) ==> self@[p] == after[p]) by {
            if p.len() == 0 {
                assert(self.descend(p) == Some(self));
                assert(before.descend(p) == Some(before));
                assert(p != key);
            } else {
                self.lemma_view_step(p);
                before.lemma_view_step(p);
                let q = p.drop_first();
                if p[0] == c {
                    lemma_prefix_step(p, key);
                    if before.child(c) is None {
                        assert(q.len() == 0 ==> q.is_prefix_of(rest));
                    }
                } else {
                    let _ = self.child(p[0]);
                    assert(!p.is_prefix_of(key)) by {
                        if p.is_prefix_of(key) {
                            assert(key.subrange(0, p.len() as int)[0] == p[0]);
                        }
                    }
                }
            }
        }
        assert(self@ =~= after);
    }

    /// Creates a tree of one node, which renders the empty path as `output`.
    pub fn new(output: &'static str) -> (node: Node)
        ensures
            node.sorted(),
            node.well_formed(),
            node@ == root_only(output@),
    {
        let node = Node { transitions: Vec::new(), output };
        proof {
            assert(node.descend(Seq::<char>::empty()) == Some(node));
            assert forall|p: Seq<char>| p.len() > 0 implies node.descend(p) is None by {
                assert(node.child(p[0]) is None);
            }
            assert forall|p: Seq<char>| #[trigger]
                node@.dom().contains(p) implies p == Seq::<char>::empty() by {
                if p.len() > 0 {
                    assert(node.descend(p) is None);
                }
                assert(p =~= Seq::<char>::empty());
            }
            assert(node@ =~= root_only(output@));
        }
        node
    }

    /// The rendering of the empty path.
    pub fn output(&self) -> (r: &'static str)
        ensures
            self@.dom().contains(Seq::<char>::empty()),
            r@ == self@[Seq::<char>::empty()],
    {
        proof {
            assert(self.descend(Seq::<char>::empty()) == Some(*self));
        }
        self.output
    }

    /// Looks for the transition for `c` one by one, in whatever order the
    /// transitions stand.
    fn position_of(&self, c: char) -> (r: Option<usize>)
        ensures
            match r {
                Some(i) => i < self.transitions@.len() && self.transitions@[i as int].0 == c,
                None => lookup(self.transitions@, c) is None,
            },
    {
        let mut i: usize = 0;
        while i < self.transitions.len()
            invariant
                i <= self.transitions@.len(),
                forall|j: int| 0 <= j < i ==> (#[trigger] self.transitions@[j]).0 != c,
            decreases self.transitions@.len() - i,
        {
            if self.transitions[i].0 == c {
                return Some(i);
            }
            i += 1;
        }
        proof {
            lemma_lookup_none(self.transitions@, c);
        }
        None
    }

    /// Renders the path `key` as `output`, adding the nodes that the path
    /// lacks, each with an empty rendering until an entry of its own is
    /// inserted. A new transition is put behind those that its node has, so
    /// a tree has to be sorted after its last insertion before it is searched.
    pub fn insert(&mut self, key: &[char], output: &'static str)
        requires
            old(self).well_formed(),
        ensures
            final(self).well_formed(),
            final(self)@ == with_entry(old(self)@, key@, output@),
        decreases key@.len(),
    {
        let ghost before = *self;
        if key.len() == 0 {
            self.output = output;
            proof {
                assert(key@ =~= Seq::<char>::empty());
                assert(before.descend(Seq::<char>::empty()) == Some(before));
                assert(self.descend(Seq::<char>::empty()) == Some(*self));
                let after = with_entry(before@, key@, output@);
                assert forall|p: Seq<char>|
                    (#[trigger] self@.dom().contains(p) <==> after.dom().contains(p)) && (
                    self@.dom().contains(p) ==> self@[p] == after[p]) by {
                    if p.len() > 0 {
                        self.lemma_view_step(p);
                        before.lemma_view_step(p);
                        assert(!p.is_prefix_of(key@));
                    } else {
                        assert(p =~= key@);
                    }
                }
                assert(self@ =~= after);
            }
            return ;
        }
        let c: char = key[0];
        let rest = vstd::slice::slice_subrange(key, 1, key.len());
        proof {
            assert(key@ =~= seq![c] + rest@);
        }
        match self.position_of(c) {
            Some(i) => {
                self.transitions[i].1.insert(rest, output);
                let ghost next = self.transitions@[i as int].1;
                proof {
                    assert(self.transitions@ =~= before.transitions@.update(i as int, (c, next)));
                    lemma_lookup_at(before.transitions@, i as int);
                    assert forall|d: char| #[trigger] self.child(d) == (if d == c {
                        Some(next)
                    } else {
                        before.child(d)
                    }) by {
                        lemma_lookup_update(before.transitions@, i as int, next, d);
                    }
                    assert forall|j: int| 0 <= j < self.transitions@.len() implies (
                    #[trigger] self.transitions@[j]).1.well_formed() by {
                        if j != i {
                            assert(self.transitions@[j] == before.transitions@[j]);
                        }
                    }
                    self.lemma_insert_below(before, c, rest@, output@);
                }
            },
            None => {
                let mut next = Node::new("");
                proof {
                    reveal_strlit("");
                    assert(""@ =~= Seq::<char>::empty());
                }
                next.insert(rest, output);
                self.transitions.push((c, next));
                proof {
                    assert(self.transitions@ =~= before.transitions@.insert(
                        before.transitions@.len() as int,
                        (c, next),
                    ));
                    assert forall|d: char| #[trigger] self.child(d) == (if d == c {
                        Some(next)
                    } else {
                        before.child(d)
                    }) by {
                        lemma_lookup_insert(
                            before.transitions@,
                            before.transitions@.len() as int,
                            c,
                            next,
                            d,
                        );
                    }
                    lemma_lookup_insert(
                        before.transitions@,
                        before.transitions@.len() as int,
                        c,
                        next,
                        c,
                    );
                    assert forall|j: int| 0 <= j < self.transitions@.len() implies (
                    #[trigger] self.transitions@[j]).1.well_formed() by {
                        if j < before.transitions@.len() {
                            assert(self.transitions@[j] == before.transitions@[j]);
                        }
                    }
                    self.lemma_insert_below(before, c, rest@, output@);
                }
            },
        }
    }

    /// Puts the transitions of this node, and of every node below it, in
    /// ascending order of their characters. What the tree renders stays as
    /// it is; afterwards a transition can be found by binary search.
    pub fn sort(&mut self)
        requires
            old(self).well_formed(),
        ensures
            final(self).sorted(),
            final(self)@ == old(self)@,
        decreases *old(self),
    {
        let ghost before = *self;
        let mut pending: Vec<(char, Node)> = Vec::new();
        std::mem::swap(&mut self.transitions, &mut pending);
        let mut done: Vec<(char, Node)> = Vec::new();
        proof {
            assert(pending@ =~= before.transitions@.take(pending@.len() as int));
            assert(before.transitions@.skip(pending@.len() as int) =~= done@);
        }
        while pending.len() > 0
            invariant
                before == *old(self),
                before.well_formed(),
                pending@.len() <= before.transitions@.len(),
                pending@ == before.transitions@.take(pending@.len() as int),
                ascending_keys(done@),
                forall|j: int| 0 <= j < done@.len() ==> (#[trigger] done@[j]).1.sorted(),
                forall|d: char|
                    same_view(
                        lookup(before.transitions@.skip(pending@.len() as int), d),
                        #[trigger] lookup(done@, d),
                    ),
            decreases pending@.len(),
        {
            let ghost k = pending@.len() - 1;
            let ghost earlier = done@;
            let (c, mut next) = pending.pop().unwrap();
            proof {
                assert((c, next) == before.transitions@[k]);
                assert(pending@ =~= before.transitions@.take(k));
                assert(decreases_to!(before => before.transitions@[k].1));
            }
            next.sort();
            let mut i: usize = 0;
            while i < done.len() && done[i].0 < c
                invariant
                    i <= done@.len(),
                    forall|j: int| 0 <= j < i ==> (#[trigger] done@[j]).0 < c,
                decreases done@.len() - i,
            {
                i += 1;
            }
            done.insert(i, (c, next));
            proof {
                let tail = before.transitions@.skip(k + 1);
                lemma_distinct_tail(before.transitions@, k);
                lemma_ascending_is_distinct(earlier);
                let _ = lookup(earlier, c);
                lemma_lookup_none(earlier, c);
                assert forall|a: int, b: int| 0 <= a < b < done@.len() implies done@[a].0
                    < done@[b].0 by {
                    let a0 = if a < i { a } else { a - 1 };
                    let b0 = if b < i { b } else { b - 1 };
                    if a != i {
                        assert(done@[a] == earlier[a0]);
                    }
                    if b != i {
                        assert(done@[b] == earlier[b0]);
                    }
                    if a == i {
                        assert(earlier[i as int].0 != c);
                        assert(earlier[i as int].0 <= earlier[b0].0);
                    }
                }
                assert forall|j: int| 0 <= j < done@.len() implies (#[trigger] done@[j]).1.sorted() by {
                    if j != i {
                        let j0 = if j < i { j } else { j - 1 };
                        assert(done@[j] == earlier[j0]);
                    }
                }
                assert forall|d: char|
                    same_view(
                        lookup(before.transitions@.skip(pending@.len() as int), d),
                        #[trigger] lookup(done@, d),
                    ) by {
                    lemma_lookup_insert(tail, 0, c, before.transitions@[k].1, d);
                    lemma_lookup_insert(earlier, i as int, c, next, d);
                    let _ = lookup(earlier, d);
                }
            }
        }
        self.transitions = done;
        proof {
            assert(before.transitions@.skip(0) =~= before.transitions@);
            assert forall|d: char| same_view(#[trigger] self.child(d), before.child(d)) by {
                let _ = lookup(done@, d);
            }
            self.lemma_same_children_same_view(before);
        }
    }

    /// Builds the tree that renders each path of `entries` as the entry says,
    /// with its transitions sorted. The first of a pair is the path, the
    /// second its rendering; of two entries for one path the later one counts.
    pub fn from_entries(entries: &[(&'static str, &'static str)]) -> (tree: Node)
        ensures
            tree.sorted(),
            tree@ == table_of(entries@),
    {
        let mut tree = Node::new("");
        proof {
            reveal_strlit("");
            assert(""@ =~= Seq::<char>::empty());
            assert(entries@.take(0) =~= Seq::empty());
        }
        let mut i: usize = 0;
        while i < entries.len()
            invariant
                i <= entries@.len(),
                tree.well_formed(),
                tree@ == table_of(entries@.take(i as int)),
            decreases entries@.len() - i,
        {
            let key = chars_of(entries[i].0);
            tree.insert(key.as_slice(), entries[i].1);
            proof {
                assert(entries@.take(i + 1).drop_last() =~= entries@.take(i as int));
                assert(entries@.take(i + 1).last() == entries@[i as int]);
            }
            i += 1;
        }
        proof {
            assert(entries@.take(entries@.len() as int) =~= entries@);
        }
        tree.sort();
        tree
    }

    /// Tests whether the transitions of every node stand in ascending order.
    pub fn is_sorted(&self) -> (r: bool)
        ensures
            r == self.sorted(),
        decreases self,
    {
        let mut i: usize = 0;
        while i < self.transitions.len()
            invariant
                i <= self.transitions@.len(),
                ascending_keys(self.transitions@.take(i as int)),
                forall|j: int| 0 <= j < i ==> (#[trigger] self.transitions@[j]).1.sorted(),
            decreases self.transitions@.len() - i,
        {
            if i > 0 && !(self.transitions[i - 1].0 < self.transitions[i].0) {
                return false;
            }
            if !self.transitions[i].1.is_sorted() {
                return false;
            }
            proof {
                let shorter = self.transitions@.take(i as int);
                let longer = self.transitions@.take(i + 1);
                assert forall|a: int, b: int| 0 <= a < b < longer.len() implies longer[a].0
                    < longer[b].0 by {
                    assert(longer[a] == self.transitions@[a]);
                    assert(longer[b] == self.transitions@[b]);
                    if b == i && a < i - 1 {
                        assert(shorter[a].0 < shorter[i - 1].0);
                    } else if b < i {
                        assert(shorter[a].0 < shorter[b].0);
                    }
                }
            }
            i += 1;
        }
        proof {
            assert(self.transitions@.take(self.transitions@.len() as int) =~= self.transitions@);
        }
        true
    }

    /// Finds the node that the transition for `c` leads to, by binary search
    /// among the transitions.
    pub fn find_transition_node(&self, c: char) -> (r: Option<&Node>)
        requires
            self.sorted(),
        ensures
            match r {
                Some(next) => {
                    &&& self.child(c) == Some(*next)
                    &&& next.sorted()
                    &&& self@.dom().contains(seq![c])
                    &&& next@ == subtable(self@, c)
                },
                None => self.child(c) is None && !self@.dom().contains(seq![c]),
            },
    {
        let mut low: usize = 0;
        let mut high: usize = self.transitions.len();
        while low < high
            invariant
                self.sorted(),
                low <= high <= self.transitions@.len(),
                forall|i: int| 0 <= i < low ==> (#[trigger] self.transitions@[i]).0 < c,
                forall|i: int|
                    high <= i < self.transitions@.len() ==> (#[trigger] self.transitions@[i]).0 > c,
            decreases high - low,
        {
            let mid: usize = low + (high - low) / 2;
            let key: char = self.transitions[mid].0;
            if key == c {
                let next = &self.transitions[mid].1;
                proof {
                    self.lemma_sorted_is_well_formed();
                    self.lemma_child_at(mid as int);
                    self.lemma_child_view(c);
                    self.lemma_child_inherits(c);
                    let one = seq![c];
                    assert(one + Seq::<char>::empty() =~= one);
                    assert(next.descend(Seq::<char>::empty()) == Some(*next));
                    assert(next@.dom().contains(Seq::<char>::empty()));
                }
                return Some(next);
            } else if key < c {
                low = mid + 1;
            } else {
                high = mid;
            }
        }
        proof {
            lemma_lookup_none(self.transitions@, c);
            self.lemma_child_view(c);
        }
        None
    }

    /// Walks from this node along `chars` for as long as a transition exists,
    /// and returns the rendering of the node where the walk ends with the
    /// number of characters walked.
    ///
    /// The walk never backs up: it stops at the first character without a
    /// transition, so what it has consumed by then is the longest prefix of
    /// `chars` that the tree holds. A count of 0 says that the tree has no
    /// entry for the first character.
    pub fn get(&self, chars: &[char]) -> (r: (&'static str, usize))
        requires
            self.sorted(),
        ensures
            r.1 <= chars@.len(),
            r.1 == longest_match(self@, chars@),
            self@.dom().contains(chars@.take(r.1 as int)),
            r.0@ == self@[chars@.take(r.1 as int)],
    {
        let mut i: usize = 0;
        let mut curr_node: &Node = self;
        proof {
            assert(chars@.take(0).len() == 0);
            assert(self.descend(chars@.take(0)) == Some(*self));
        }
        while i < chars.len()
            invariant_except_break
                i <= chars@.len(),
            invariant
                i <= chars@.len(),
                curr_node.sorted(),
                self.descend(chars@.take(i as int)) == Some(*curr_node),
            ensures
                i == chars@.len() || self.descend(chars@.take(i + 1)) is None,
            decreases chars@.len() - i,
        {
            let c: char = chars[i];
            proof {
                self.lemma_descend_push(chars@.take(i as int), c);
                assert(chars@.take(i as int).push(c) =~= chars@.take(i + 1));
            }
            match curr_node.find_transition_node(c) {
                Some(next) => {
                    curr_node = next;
                },
                None => {
                    break ;
                },
            }
            i += 1;
        }
        proof {
            self.lemma_view_is_prefix_closed();
            assert forall|n: int| i < n <= chars@.len() implies !self@.dom().contains(
                #[trigger] chars@.take(n),
            ) by {
                if self@.dom().contains(chars@.take(n)) {
                    assert(chars@.take(n).take(i + 1) =~= chars@.take(i + 1));
                    assert(self@.dom().contains(chars@.take(n).take(i + 1)));
                }
            }
            lemma_longest_match_unique(self@, chars@, i as nat);
        }
        (curr_node.output, i)
    }

    /// Looks up the longest run that begins at index `start` of `chars`: its
    /// rendering, and how many characters it takes. A count of 0 says that
    /// the tree has no entry for the character at `start`, or that `start` is
    /// the end of `chars`.
    pub fn lookup(&self, chars: &[char], start: usize) -> (r: (&'static str, usize))
        requires
            self.sorted(),
            start <= chars@.len(),
        ensures
            start + r.1 <= chars@.len(),
            r.1 == longest_match(self@, chars@.skip(start as int)),
            self@.dom().contains(chars@.subrange(start as int, start + r.1)),
            r.0@ == self@[chars@.subrange(start as int, start + r.1)],
    {
        let rest = vstd::slice::slice_subrange(chars, start, chars.len());
        let r = self.get(rest);
        proof {
            assert(rest@ =~= chars@.skip(start as int));
            assert(rest@.take(r.1 as int) =~= chars@.subrange(start as int, start + r.1));
        }
        r
    }
}

} // verus!
