//! Character-keyed prefix trie mapping complete keys to values, with exact
//! lookup, longest-prefix and all-prefix queries. The view of a trie is the
//! `Map` from complete keys to their stored values.

use vstd::prelude::*;
use vstd::string::StrSliceExecFns;
use crate::text::push_char;

verus! {

/// A node in the prefix trie.
#[derive(Debug)]
pub struct TrieNode<V> {
    /// Children, keyed by character; characters are pairwise distinct.
    children: Vec<(char, TrieNode<V>)>,
    /// Value stored at this node, if this node terminates a key.
    value: Option<V>,
}

/// First child of the list carrying the given character.
spec fn spec_child_in<V>(s: Seq<(char, TrieNode<V>)>, c: char) -> Option<TrieNode<V>>
    decreases s.len(),
{
    if s.len() == 0 {
        None
    } else if s[0].0 == c {
        Some(s[0].1)
    } else {
        spec_child_in(s.drop_first(), c)
    }
}

proof fn lemma_child_in_at<V>(s: Seq<(char, TrieNode<V>)>, c: char, j: int)
    requires
        0 <= j < s.len(),
        s[j].0 == c,
        forall|t: int| 0 <= t < j ==> s[t].0 != c,
    ensures
        spec_child_in(s, c) == Some(s[j].1),
    decreases s.len(),
{
    if j > 0 {
        lemma_child_in_at(s.drop_first(), c, j - 1);
    }
}

proof fn lemma_child_in_none<V>(s: Seq<(char, TrieNode<V>)>, c: char)
    requires
        forall|t: int| 0 <= t < s.len() ==> s[t].0 != c,
    ensures
        spec_child_in(s, c) == None::<TrieNode<V>>,
    decreases s.len(),
{
    if s.len() > 0 {
        lemma_child_in_none(s.drop_first(), c);
    }
}

/// Updating the child at index `j` only affects lookups of its character.
proof fn lemma_child_in_update<V>(
    s: Seq<(char, TrieNode<V>)>,
    j: int,
    p: (char, TrieNode<V>),
    c: char,
)
    requires
        0 <= j < s.len(),
        s[j].0 == p.0,
        forall|a: int, b: int| 0 <= a < b < s.len() ==> s[a].0 != s[b].0,
    ensures
        p.0 == c ==> spec_child_in(s.update(j, p), c) == Some(p.1),
        p.0 != c ==> spec_child_in(s.update(j, p), c) == spec_child_in(s, c),
{
    let u = s.update(j, p);
    assert(forall|t: int| 0 <= t < s.len() && t != j ==> u[t] == s[t]);
    if p.0 == c {
        assert(forall|t: int| 0 <= t < j ==> u[t].0 != c);
        lemma_child_in_at(u, c, j);
    } else {
        lemma_find_entry_props(s, c);
        match spec_find_entry(s, c) {
            Some(t) => {
                assert(s[t].0 == c && s[j].0 != c);
                assert(t != j);
                lemma_child_in_at(s, c, t);
                assert(u[t].0 == c);
                assert(forall|q: int| 0 <= q < t ==> u[q].0 != c) by {
                    assert(forall|q: int| 0 <= q < t && q != j ==> u[q] == s[q]);
                };
                lemma_child_in_at(u, c, t);
                assert(u[t] == s[t]);
            },
            None => {
                lemma_child_in_none(s, c);
                assert(forall|q: int| 0 <= q < u.len() ==> u[q].0 != c) by {
                    assert(forall|q: int| 0 <= q < s.len() && q != j ==> u[q] == s[q]);
                };
                lemma_child_in_none(u, c);
            },
        }
    }
}

/// First index carrying the character, if any.
spec fn spec_find_entry<V>(s: Seq<(char, TrieNode<V>)>, c: char) -> Option<int>
    decreases s.len(),
{
    if s.len() == 0 {
        None
    } else if s[0].0 == c {
        Some(0int)
    } else {
        match spec_find_entry(s.drop_first(), c) {
            Some(t) => Some(t + 1),
            None => None,
        }
    }
}

proof fn lemma_find_entry_props<V>(s: Seq<(char, TrieNode<V>)>, c: char)
    ensures
        match spec_find_entry(s, c) {
            Some(t) => 0 <= t < s.len() && s[t].0 == c && forall|q: int|
                0 <= q < t ==> s[q].0 != c,
            None => forall|q: int| 0 <= q < s.len() ==> s[q].0 != c,
        },
    decreases s.len(),
{
    if s.len() > 0 && s[0].0 != c {
        lemma_find_entry_props(s.drop_first(), c);
        let t = s.drop_first();
        assert(forall|q: int| 0 <= q < t.len() ==> t[q] == s[q + 1]);
        match spec_find_entry(t, c) {
            Some(x) => {
                assert(forall|q: int| 1 <= q < x + 1 ==> s[q] == t[q - 1] && t[q - 1].0 != c);
            },
            None => {
                assert(forall|q: int| 1 <= q < s.len() ==> s[q] == t[q - 1] && t[q - 1].0 != c);
            },
        }
    }
}

/// Appending a fresh character exposes it to lookup without disturbing others.
proof fn lemma_child_in_push<V>(s: Seq<(char, TrieNode<V>)>, p: (char, TrieNode<V>), c: char)
    ensures
        spec_child_in(s, c) is Some ==> spec_child_in(s.push(p), c) == spec_child_in(s, c),
        spec_child_in(s, c) is None && p.0 == c ==> spec_child_in(s.push(p), c) == Some(p.1),
        spec_child_in(s, c) is None && p.0 != c ==> spec_child_in(s.push(p), c)
            == None::<TrieNode<V>>,
    decreases s.len(),
{
    if s.len() == 0 {
        assert(s.push(p)[0] == p);
        if p.0 != c {
            let e = s.push(p).drop_first();
            assert(e =~= Seq::<(char, TrieNode<V>)>::empty());
            assert(spec_child_in(e, c) is None);
        }
    } else {
        lemma_child_in_push(s.drop_first(), p, c);
        assert(s.push(p).drop_first() =~= s.drop_first().push(p));
        assert(s.push(p)[0] == s[0]);
    }
}

impl<V> TrieNode<V> {
    /// Well-formed: children characters are pairwise distinct, recursively.
    pub closed spec fn wf(self) -> bool
        decreases self,
    {
        (forall|a: int, b: int|
            0 <= a < b < self.children@.len() ==> self.children@[a].0 != self.children@[b].0)
            && all_children_wf(self.children@)
    }

    /// The value this subtree associates with the key, if any.
    pub closed spec fn spec_get(self, k: Seq<char>) -> Option<V>
        decreases self, k.len(),
    {
        if k.len() == 0 {
            self.value
        } else {
            match spec_find_entry(self.children@, k[0]) {
                Some(j) => if 0 <= j < self.children@.len() {
                    self.children@[j].1.spec_get(k.drop_first())
                } else {
                    None
                },
                None => None,
            }
        }
    }



    /// Create a new empty trie node.
    pub fn new() -> (r: TrieNode<V>)
        ensures
            r.wf(),
            forall|k: Seq<char>| r.spec_get(k) is None,
    {
        let r = TrieNode { children: Vec::new(), value: None };
        proof {
            lemma_wf_build(r);
            assert forall|k: Seq<char>| r.spec_get(k) is None by {
                if k.len() > 0 {
                    lemma_get_unfold(r, k);
                    lemma_child_in_none(r.children@, k[0]);
                }
            };
        }
        r
    }

    /// Check if this node has any children.
    pub fn has_children(&self) -> (r: bool)
        ensures
            r == (self.spec_children_count() > 0),
    {
        self.children.len() > 0
    }

    /// The number of direct children.
    pub closed spec fn spec_children_count(self) -> int {
        self.children@.len() as int
    }

    /// Get the number of children.
    pub fn children_count(&self) -> (r: usize)
        ensures
            r as int == self.spec_children_count(),
    {
        self.children.len()
    }
}

/// Every node of a child list is itself well-formed.
spec fn all_children_wf<V>(s: Seq<(char, TrieNode<V>)>) -> bool
    decreases s,
{
    s.len() == 0 || (s[0].1.wf() && all_children_wf(s.drop_first()))
}

proof fn lemma_all_children_wf_index<V>(s: Seq<(char, TrieNode<V>)>, j: int)
    requires
        all_children_wf(s),
        0 <= j < s.len(),
    ensures
        s[j].1.wf(),
    decreases j,
{
    if j > 0 {
        lemma_all_children_wf_index(s.drop_first(), j - 1);
    }
}

proof fn lemma_all_children_wf_build<V>(s: Seq<(char, TrieNode<V>)>)
    requires
        forall|a: int| 0 <= a < s.len() ==> (#[trigger] s[a]).1.wf(),
    ensures
        all_children_wf(s),
    decreases s.len(),
{
    if s.len() > 0 {
        assert(forall|a: int| 0 <= a < s.drop_first().len() ==> #[trigger] s.drop_first()[a]
            == s[a + 1]);
        lemma_all_children_wf_build(s.drop_first());
    }
}

/// A well-formed node has pairwise distinct child characters and
/// well-formed children.
proof fn lemma_wf_unfold<V>(n: TrieNode<V>)
    requires
        n.wf(),
    ensures
        forall|a: int, b: int|
            0 <= a < b < n.children@.len() ==> n.children@[a].0 != n.children@[b].0,
        forall|a: int| 0 <= a < n.children@.len() ==> #[trigger] n.children@[a].1.wf(),
{
    assert forall|a: int| 0 <= a < n.children@.len() implies #[trigger] n.children@[a].1.wf() by {
        lemma_all_children_wf_index(n.children@, a);
    };
}

/// The converse direction: assemble well-formedness from pointwise facts.
proof fn lemma_wf_build<V>(n: TrieNode<V>)
    requires
        forall|a: int, b: int|
            0 <= a < b < n.children@.len() ==> n.children@[a].0 != n.children@[b].0,
        forall|a: int| 0 <= a < n.children@.len() ==> #[trigger] n.children@[a].1.wf(),
    ensures
        n.wf(),
{
    assert(forall|a: int| 0 <= a < n.children@.len() ==> (#[trigger] n.children@[a]).1.wf());
    lemma_all_children_wf_build(n.children@);
}

/// Sequences agreeing on head and tail are equal.
proof fn lemma_eq_by_head_tail(a: Seq<char>, b: Seq<char>)
    requires
        a.len() > 0,
        b.len() > 0,
        a[0] == b[0],
        a.drop_first() == b.drop_first(),
    ensures
        a == b,
{
    assert(a =~= seq![a[0]] + a.drop_first());
    assert(b =~= seq![b[0]] + b.drop_first());
}

/// `spec_get` steps through the first child carrying the next character.
proof fn lemma_get_unfold<V>(n: TrieNode<V>, k: Seq<char>)
    requires
        k.len() > 0,
    ensures
        n.spec_get(k) == (match spec_child_in(n.children@, k[0]) {
            Some(child) => child.spec_get(k.drop_first()),
            None => None::<V>,
        }),
{
    lemma_find_entry_props(n.children@, k[0]);
    match spec_find_entry(n.children@, k[0]) {
        Some(j) => {
            lemma_child_in_at(n.children@, k[0], j);
        },
        None => {
            lemma_child_in_none(n.children@, k[0]);
        },
    }
}

/// Index of the first child with this character, if any.
fn find_child_idx<V>(children: &Vec<(char, TrieNode<V>)>, c: char) -> (r: Option<usize>)
    ensures
        match r {
            Some(j) => j < children@.len() && children@[j as int].0 == c && (forall|t: int|
                0 <= t < j ==> children@[t].0 != c) && spec_child_in(children@, c) == Some(
                children@[j as int].1,
            ),
            None => spec_child_in(children@, c) == None::<TrieNode<V>>,
        },
{
    let n = children.len();
    let mut j: usize = 0;
    while j < n
        invariant
            n == children@.len(),
            j <= n,
            forall|t: int| 0 <= t < j ==> children@[t].0 != c,
        decreases n - j,
    {
        if children[j].0 == c {
            proof {
                lemma_child_in_at(children@, c, j as int);
            }
            return Some(j);
        }
        j = j + 1;
    }
    proof {
        lemma_child_in_none(children@, c);
    }
    None
}

/// A chain of nodes holding exactly the suffix of `key` from `i` on.
fn make_chain<V>(key: &str, i: usize, value: V) -> (node: TrieNode<V>)
    requires
        i <= key@.len(),
    ensures
        node.wf(),
        forall|k: Seq<char>|
            node.spec_get(k) == (if k == key@.skip(i as int) {
                Some(value)
            } else {
                None::<V>
            }),
    decreases key@.len() - i,
{
    let n = key.unicode_len();
    if i == n {
        let node = TrieNode { children: Vec::new(), value: Some(value) };
        proof {
            lemma_wf_build(node);
            assert(key@.skip(i as int) =~= Seq::<char>::empty());
            assert forall|k: Seq<char>|
                node.spec_get(k) == (if k == key@.skip(i as int) {
                    Some(value)
                } else {
                    None::<V>
                }) by {
                if k.len() > 0 {
                    lemma_get_unfold(node, k);
                    lemma_child_in_none(node.children@, k[0]);
                    assert(k != key@.skip(i as int));
                } else {
                    assert(k =~= key@.skip(i as int));
                }
            };
        }
        node
    } else {
        let c = key.get_char(i);
        let sub = make_chain(key, i + 1, value);
        let mut children: Vec<(char, TrieNode<V>)> = Vec::new();
        children.push((c, sub));
        let node = TrieNode { children, value: None };
        proof {
            assert(node.children@[0].1 == sub);
            lemma_wf_build(node);
            let tail = key@.skip(i as int);
            assert(tail.len() > 0 && tail[0] == c);
            assert(tail.drop_first() =~= key@.skip(i + 1));
            assert forall|k: Seq<char>|
                node.spec_get(k) == (if k == key@.skip(i as int) {
                    Some(value)
                } else {
                    None::<V>
                }) by {
                if k.len() > 0 {
                    lemma_get_unfold(node, k);
                    assert(node.children@[0] == (c, sub));
                    if k[0] == c {
                        lemma_child_in_at(node.children@, c, 0);
                        if k == tail {
                            assert(k.drop_first() == key@.skip(i + 1));
                        } else {
                            assert(k.drop_first() != key@.skip(i + 1)) by {
                                if k.drop_first() == key@.skip(i + 1) {
                                    lemma_eq_by_head_tail(k, tail);
                                }
                            };
                        }
                    } else {
                        lemma_child_in_none(node.children@, k[0]);
                        assert(k != tail);
                    }
                } else {
                    assert(k != tail);
                }
            };
        }
        node
    }
}

/// Insert the suffix of `key` from `i` on; reports whether the key was
/// already present.
fn insert_rec<V>(node: &mut TrieNode<V>, key: &str, i: usize, value: V) -> (replaced: bool)
    requires
        old(node).wf(),
        i <= key@.len(),
    ensures
        final(node).wf(),
        replaced == (old(node).spec_get(key@.skip(i as int)) is Some),
        forall|k: Seq<char>|
            final(node).spec_get(k) == (if k == key@.skip(i as int) {
                Some(value)
            } else {
                old(node).spec_get(k)
            }),
    decreases key@.len() - i,
{
    let n = key.unicode_len();
    if i == n {
        let replaced = node.value.is_some();
        node.value = Some(value);
        proof {
            let tail = key@.skip(i as int);
            assert(tail =~= Seq::<char>::empty());
            assert forall|k: Seq<char>|
                node.spec_get(k) == (if k == tail {
                    Some(value)
                } else {
                    old(node).spec_get(k)
                }) by {
                if k.len() == 0 {
                    assert(k =~= tail);
                } else {
                    lemma_get_unfold(*node, k);
                    lemma_get_unfold(*old(node), k);
                    assert(node.children@ == old(node).children@);
                }
            };
        }
        replaced
    } else {
        let c = key.get_char(i);
        let ghost tail = key@.skip(i as int);
        proof {
            assert(tail.len() > 0 && tail[0] == c);
            assert(tail.drop_first() =~= key@.skip(i + 1));
        }
        match find_child_idx(&node.children, c) {
            Some(j) => {
                let ghost pre = node.children@;
                let ghost sub = pre[j as int].1;
                proof {
                    lemma_wf_unfold(*old(node));
                    assert(pre[j as int].1.wf());
                }
                let mut pair = node.children.remove(j);
                let replaced = insert_rec(&mut pair.1, key, i + 1, value);
                node.children.insert(j, pair);
                proof {
                    let post = node.children@;
                    assert(post =~= pre.update(j as int, (pre[j as int].0, pair.1)));
                    assert(pair.0 == pre[j as int].0);
                    assert forall|d: char|
                        (d == c ==> spec_child_in(post, d) == Some(pair.1)) && (d != c
                            ==> spec_child_in(post, d) == spec_child_in(pre, d)) by {
                        lemma_child_in_update(pre, j as int, (c, pair.1), d);
                    };
                    assert(node.wf()) by {
                        assert(forall|a: int, b: int|
                            0 <= a < b < post.len() ==> post[a].0 != post[b].0);
                        assert forall|a: int| 0 <= a < post.len() implies #[trigger] post[a].1.wf()
                            by {
                            lemma_wf_unfold(*old(node));
                            if a != j {
                                assert(post[a] == pre[a]);
                            } else {
                                assert(post[a].1 == pair.1);
                            }
                        };
                        lemma_wf_build(*node);
                    };
                    lemma_get_unfold(*old(node), tail);
                    assert(old(node).spec_get(tail) == sub.spec_get(key@.skip(i + 1)));
                    assert forall|k: Seq<char>|
                        node.spec_get(k) == (if k == tail {
                            Some(value)
                        } else {
                            old(node).spec_get(k)
                        }) by {
                        if k.len() == 0 {
                            assert(k != tail);
                            assert(node.spec_get(k) == node.value);
                        } else {
                            lemma_get_unfold(*node, k);
                            lemma_get_unfold(*old(node), k);
                            if k[0] == c {
                                assert(node.spec_get(k) == pair.1.spec_get(k.drop_first()));
                                assert(old(node).spec_get(k) == sub.spec_get(k.drop_first()));
                                if k == tail {
                                    assert(k.drop_first() == key@.skip(i + 1));
                                } else {
                                    assert(k.drop_first() != key@.skip(i + 1)) by {
                                        if k.drop_first() == key@.skip(i + 1) {
                                            lemma_eq_by_head_tail(k, tail);
                                        }
                                    };
                                }
                            } else {
                                assert(k != tail);
                            }
                        }
                    };
                }
                replaced
            },
            None => {
                let chain = make_chain(key, i + 1, value);
                let ghost pre = node.children@;
                node.children.push((c, chain));
                proof {
                    let post = node.children@;
                    assert(post == pre.push((c, chain)));
                    lemma_find_entry_props(pre, c);
                    match spec_find_entry(pre, c) {
                        Some(t) => {
                            lemma_child_in_at(pre, c, t);
                            assert(false);
                        },
                        None => {},
                    }
                    assert(forall|q: int| 0 <= q < pre.len() ==> pre[q].0 != c);
                    assert forall|d: char| true implies (if d == c {
                        spec_child_in(post, d) == Some(chain)
                    } else {
                        spec_child_in(post, d) == spec_child_in(pre, d)
                    }) by {
                        lemma_child_in_push(pre, (c, chain), d);
                    };
                    assert(node.wf()) by {
                        assert(forall|a: int| 0 <= a < pre.len() ==> post[a] == pre[a]);
                        assert(post[pre.len() as int] == (c, chain));
                        assert(forall|a: int, b: int|
                            0 <= a < b < post.len() ==> post[a].0 != post[b].0);
                        assert forall|a: int| 0 <= a < post.len() implies #[trigger] post[a].1.wf()
                            by {
                            lemma_wf_unfold(*old(node));
                            if a < pre.len() {
                                assert(post[a] == pre[a]);
                            } else {
                                assert(post[a].1 == chain);
                            }
                        };
                        lemma_wf_build(*node);
                    };
                    lemma_get_unfold(*old(node), tail);
                    assert(old(node).spec_get(tail) is None);
                    assert forall|k: Seq<char>|
                        node.spec_get(k) == (if k == tail {
                            Some(value)
                        } else {
                            old(node).spec_get(k)
                        }) by {
                        if k.len() == 0 {
                            assert(k != tail);
                        } else {
                            lemma_get_unfold(*node, k);
                            lemma_get_unfold(*old(node), k);
                            if k[0] == c {
                                assert(node.spec_get(k) == chain.spec_get(k.drop_first()));
                                assert(old(node).spec_get(k) is None);
                                if k == tail {
                                    assert(k.drop_first() == key@.skip(i + 1));
                                } else {
                                    assert(k.drop_first() != key@.skip(i + 1)) by {
                                        if k.drop_first() == key@.skip(i + 1) {
                                            lemma_eq_by_head_tail(k, tail);
                                        }
                                    };
                                }
                            } else {
                                assert(k != tail);
                            }
                        }
                    };
                }
                false
            },
        }
    }
}

/// Remove the suffix of `key` from `i` on; returns the stored value, if any.
/// Emptied branches are not pruned.
fn remove_rec<V>(node: &mut TrieNode<V>, key: &str, i: usize) -> (r: Option<V>)
    requires
        old(node).wf(),
        i <= key@.len(),
    ensures
        final(node).wf(),
        r == old(node).spec_get(key@.skip(i as int)),
        forall|k: Seq<char>|
            final(node).spec_get(k) == (if k == key@.skip(i as int) {
                None::<V>
            } else {
                old(node).spec_get(k)
            }),
    decreases key@.len() - i,
{
    let n = key.unicode_len();
    if i == n {
        let r = node.value.take();
        proof {
            let tail = key@.skip(i as int);
            assert(tail =~= Seq::<char>::empty());
            assert forall|k: Seq<char>|
                node.spec_get(k) == (if k == tail {
                    None::<V>
                } else {
                    old(node).spec_get(k)
                }) by {
                if k.len() == 0 {
                    assert(k =~= tail);
                } else {
                    lemma_get_unfold(*node, k);
                    lemma_get_unfold(*old(node), k);
                    assert(node.children@ == old(node).children@);
                }
            };
        }
        r
    } else {
        let c = key.get_char(i);
        let ghost tail = key@.skip(i as int);
        proof {
            assert(tail.len() > 0 && tail[0] == c);
            assert(tail.drop_first() =~= key@.skip(i + 1));
        }
        match find_child_idx(&node.children, c) {
            Some(j) => {
                let ghost pre = node.children@;
                let ghost sub = pre[j as int].1;
                proof {
                    lemma_wf_unfold(*old(node));
                    assert(pre[j as int].1.wf());
                }
                let mut pair = node.children.remove(j);
                let r = remove_rec(&mut pair.1, key, i + 1);
                node.children.insert(j, pair);
                proof {
                    let post = node.children@;
                    assert(post =~= pre.update(j as int, (pre[j as int].0, pair.1)));
                    assert(pair.0 == pre[j as int].0);
                    assert forall|d: char|
                        (d == c ==> spec_child_in(post, d) == Some(pair.1)) && (d != c
                            ==> spec_child_in(post, d) == spec_child_in(pre, d)) by {
                        lemma_child_in_update(pre, j as int, (c, pair.1), d);
                    };
                    assert(node.wf()) by {
                        assert(forall|a: int, b: int|
                            0 <= a < b < post.len() ==> post[a].0 != post[b].0);
                        assert forall|a: int| 0 <= a < post.len() implies #[trigger] post[a].1.wf()
                            by {
                            lemma_wf_unfold(*old(node));
                            if a != j {
                                assert(post[a] == pre[a]);
                            } else {
                                assert(post[a].1 == pair.1);
                            }
                        };
                        lemma_wf_build(*node);
                    };
                    lemma_get_unfold(*old(node), tail);
                    assert(old(node).spec_get(tail) == sub.spec_get(key@.skip(i + 1)));
                    assert forall|k: Seq<char>|
                        node.spec_get(k) == (if k == tail {
                            None::<V>
                        } else {
                            old(node).spec_get(k)
                        }) by {
                        if k.len() == 0 {
                            assert(k != tail);
                        } else {
                            lemma_get_unfold(*node, k);
                            lemma_get_unfold(*old(node), k);
                            if k[0] == c {
                                assert(node.spec_get(k) == pair.1.spec_get(k.drop_first()));
                                assert(old(node).spec_get(k) == sub.spec_get(k.drop_first()));
                                if k == tail {
                                    assert(k.drop_first() == key@.skip(i + 1));
                                } else {
                                    assert(k.drop_first() != key@.skip(i + 1)) by {
                                        if k.drop_first() == key@.skip(i + 1) {
                                            lemma_eq_by_head_tail(k, tail);
                                        }
                                    };
                                }
                            } else {
                                assert(k != tail);
                            }
                        }
                    };
                }
                r
            },
            None => {
                proof {
                    lemma_get_unfold(*old(node), tail);
                    assert(old(node).spec_get(tail) is None);
                    assert forall|k: Seq<char>|
                        node.spec_get(k) == (if k == tail {
                            None::<V>
                        } else {
                            old(node).spec_get(k)
                        }) by {
                        if k == tail {
                            lemma_get_unfold(*node, k);
                        }
                    };
                }
                None
            },
        }
    }
}

/// Prefix trie mapping complete string keys to values.
#[derive(Debug)]
pub struct PrefixTrie<V> {
    root: TrieNode<V>,
    size: usize,
}

impl<V> View for PrefixTrie<V> {
    type V = Map<Seq<char>, V>;

    /// The map from complete keys to their stored values.
    closed spec fn view(&self) -> Map<Seq<char>, V> {
        Map::new(|k: Seq<char>| self.root.spec_get(k) is Some, |k: Seq<char>| self.root.spec_get(k)->Some_0)
    }
}

impl<V> PrefixTrie<V> {
    /// Well-formed: distinct child characters everywhere, and the recorded
    /// size matches the number of keys.
    pub closed spec fn wf(&self) -> bool {
        self.root.wf() && self@.dom().finite() && self.size as int == self@.dom().len()
    }

    /// A well-formed trie has finitely many keys.
    pub proof fn lemma_dom_finite(&self)
        requires
            self.wf(),
        ensures
            self@.dom().finite(),
            self@.dom().len() <= usize::MAX,
    {
    }

    /// Create a new empty trie.
    pub fn new() -> (r: PrefixTrie<V>)
        ensures
            r.wf(),
            r@ == Map::<Seq<char>, V>::empty(),
    {
        let r = PrefixTrie { root: TrieNode::new(), size: 0 };
        proof {
            assert(r@ =~= Map::<Seq<char>, V>::empty());
            assert(r@.dom() =~= Set::<Seq<char>>::empty());
        }
        r
    }

    /// Insert a key-value pair; re-inserting an existing key overwrites its
    /// value without changing the trie's size.
    pub fn insert(&mut self, key: &str, value: V)
        requires
            old(self).wf(),
            old(self)@.dom().len() < usize::MAX,
        ensures
            final(self).wf(),
            final(self)@ == old(self)@.insert(key@, value),
    {
        let ghost m0 = old(self)@;
        let replaced = insert_rec(&mut self.root, key, 0, value);
        proof {
            assert(key@.skip(0) =~= key@);
            let m1 = self@;
            let m2 = m0.insert(key@, value);
            assert forall|k: Seq<char>| m1.dom().contains(k) == m2.dom().contains(k) by {
                assert(m1.dom().contains(k) == (self.root.spec_get(k) is Some));
                assert(m0.dom().contains(k) == (old(self).root.spec_get(k) is Some));
            };
            assert(m1.dom() =~= m2.dom());
            assert forall|k: Seq<char>| #[trigger] m1.dom().contains(k) implies m1[k] == m2[k] by {
                assert(m1[k] == self.root.spec_get(k)->Some_0);
                if k != key@ {
                    assert(m0[k] == old(self).root.spec_get(k)->Some_0);
                }
            };
            assert(m1 =~= m2);
            assert(self@.dom() =~= m0.dom().insert(key@));
        }
        if !replaced {
            proof {
                assert(!old(self)@.dom().contains(key@));
            }
            self.size = self.size + 1;
        } else {
            proof {
                assert(old(self)@.dom().contains(key@));
                assert(old(self)@.dom().insert(key@) =~= old(self)@.dom());
            }
        }
    }

    /// Exact-key lookup.
    pub fn get(&self, key: &str) -> (r: Option<&V>)
        requires
            self.wf(),
        ensures
            match r {
                Some(v) => self@.contains_key(key@) && self@[key@] == *v,
                None => !self@.contains_key(key@),
            },
    {
        let n = key.unicode_len();
        let mut node: &TrieNode<V> = &self.root;
        let mut i: usize = 0;
        proof {
            assert(key@.skip(0) =~= key@);
        }
        while i < n
            invariant
                n == key@.len(),
                i <= n,
                node.spec_get(key@.skip(i as int)) == self.root.spec_get(key@),
            decreases n - i,
        {
            let c = key.get_char(i);
            proof {
                assert(key@.skip(i as int)[0] == c);
                assert(key@.skip(i as int).drop_first() =~= key@.skip(i + 1));
                lemma_get_unfold(*node, key@.skip(i as int));
            }
            match find_child_idx(&node.children, c) {
                Some(j) => {
                    node = &node.children[j].1;
                },
                None => {
                    proof {
                        assert(self.root.spec_get(key@) is None);
                    }
                    return None;
                },
            }
            i = i + 1;
        }
        proof {
            assert(key@.skip(n as int) =~= Seq::<char>::empty());
        }
        match &node.value {
            Some(v) => Some(v),
            None => None,
        }
    }

    /// Check if a key exists in the trie.
    pub fn contains(&self, key: &str) -> (r: bool)
        requires
            self.wf(),
        ensures
            r == self@.contains_key(key@),
    {
        self.get(key).is_some()
    }

    /// The number of keys in the trie.
    pub fn len(&self) -> (r: usize)
        requires
            self.wf(),
        ensures
            r as int == self@.dom().len(),
    {
        self.size
    }

    /// Check if the trie is empty.
    pub fn is_empty(&self) -> (r: bool)
        requires
            self.wf(),
        ensures
            r == (self@.dom().len() == 0),
    {
        self.size == 0
    }

    /// Remove a key; returns its value if it existed. Emptied branches are
    /// kept, an accepted space/time tradeoff.
    pub fn remove(&mut self, key: &str) -> (r: Option<V>)
        requires
            old(self).wf(),
        ensures
            final(self).wf(),
            final(self)@ == old(self)@.remove(key@),
            match r {
                Some(v) => old(self)@.contains_key(key@) && old(self)@[key@] == v,
                None => !old(self)@.contains_key(key@),
            },
    {
        let ghost m0 = old(self)@;
        let r = remove_rec(&mut self.root, key, 0);
        proof {
            assert(key@.skip(0) =~= key@);
            let m1 = self@;
            let m2 = m0.remove(key@);
            assert forall|k: Seq<char>| m1.dom().contains(k) == m2.dom().contains(k) by {
                assert(m1.dom().contains(k) == (self.root.spec_get(k) is Some));
                assert(m0.dom().contains(k) == (old(self).root.spec_get(k) is Some));
            };
            assert(m1.dom() =~= m2.dom());
            assert forall|k: Seq<char>| #[trigger] m1.dom().contains(k) implies m1[k] == m2[k] by {
                assert(m1[k] == self.root.spec_get(k)->Some_0);
                assert(m0[k] == old(self).root.spec_get(k)->Some_0);
            };
            assert(m1 =~= m2);
            assert(self@.dom() =~= m0.dom().remove(key@));
        }
        if r.is_some() {
            proof {
                assert(old(self)@.dom().contains(key@));
            }
            self.size = self.size - 1;
        } else {
            proof {
                assert(!old(self)@.dom().contains(key@));
                assert(old(self)@.dom().remove(key@) =~= old(self)@.dom());
            }
        }
        r
    }
}

impl<V> Default for PrefixTrie<V> {
    fn default() -> (r: PrefixTrie<V>)
        ensures
            r.wf(),
            r@ == Map::<Seq<char>, V>::empty(),
    {
        PrefixTrie::new()
    }
}

impl<V> Default for TrieNode<V> {
    fn default() -> (r: TrieNode<V>)
        ensures
            r.wf(),
    {
        TrieNode::new()
    }
}

impl<V> PrefixTrie<V> {
    /// Longest registered key that prefixes the input, with its value and
    /// consumed length. Only non-empty prefixes count.
    pub fn longest_prefix_match<'a>(&'a self, input: &str) -> (r: Option<(&'a V, usize)>)
        requires
            self.wf(),
        ensures
            match r {
                Some(p) => 1 <= p.1 <= input@.len() && self@.contains_key(
                    input@.take(p.1 as int),
                ) && self@[input@.take(p.1 as int)] == *p.0 && forall|l: int|
                    p.1 < l <= input@.len() ==> !self@.contains_key(#[trigger] input@.take(l)),
                None => forall|l: int|
                    1 <= l <= input@.len() ==> !self@.contains_key(#[trigger] input@.take(l)),
            },
    {
        let n = input.unicode_len();
        let mut node: &TrieNode<V> = &self.root;
        let mut best: Option<(&'a V, usize)> = None;
        let mut i: usize = 0;
        proof {
            assert(input@.take(0) =~= Seq::<char>::empty());
        }
        while i < n
            invariant
                n == input@.len(),
                i <= n,
                forall|k: Seq<char>| #[trigger] node.spec_get(k) == self.root.spec_get(
                    input@.take(i as int) + k,
                ),
                match best {
                    Some(p) => 1 <= p.1 <= i && self.root.spec_get(input@.take(p.1 as int))
                        == Some(*p.0) && forall|l: int|
                        p.1 < l <= i ==> self.root.spec_get(#[trigger] input@.take(l)) is None,
                    None => forall|l: int|
                        1 <= l <= i ==> self.root.spec_get(#[trigger] input@.take(l)) is None,
                },
            decreases n - i,
        {
            let c = input.get_char(i);
            let ghost pre = input@.take(i as int);
            match find_child_idx(&node.children, c) {
                Some(j) => {
                    let child = &node.children[j].1;
                    proof {
                        assert forall|k: Seq<char>| #[trigger] child.spec_get(k)
                            == self.root.spec_get(input@.take(i + 1) + k) by {
                            let ck = seq![c] + k;
                            lemma_get_unfold(*node, ck);
                            assert(ck[0] == c && ck.drop_first() =~= k);
                            assert(node.spec_get(ck) == child.spec_get(k));
                            assert(pre + ck =~= input@.take(i + 1) + k);
                            assert(node.spec_get(ck) == self.root.spec_get(pre + ck));
                        };
                    }
                    match &child.value {
                        Some(v) => {
                            proof {
                                assert(child.spec_get(Seq::<char>::empty()) == Some(*v));
                                assert(input@.take(i + 1) + Seq::<char>::empty() =~= input@.take(
                                    i + 1,
                                ));
                                assert(self.root.spec_get(input@.take(i + 1)) == Some(*v));
                            }
                            best = Some((v, i + 1));
                        },
                        None => {
                            proof {
                                assert(child.spec_get(Seq::<char>::empty()) is None);
                                assert(input@.take(i + 1) + Seq::<char>::empty() =~= input@.take(
                                    i + 1,
                                ));
                                assert(self.root.spec_get(input@.take(i + 1)) is None);
                            }
                        },
                    }
                    node = child;
                },
                None => {
                    proof {
                        assert forall|l: int|
                            i < l <= n implies self.root.spec_get(
                            #[trigger] input@.take(l),
                        ) is None by {
                            let k = input@.take(l).skip(i as int);
                            assert(pre + k =~= input@.take(l));
                            assert(k.len() > 0 && k[0] == c);
                            lemma_get_unfold(*node, k);
                            assert(node.spec_get(k) is None);
                        };
                        match best {
                            Some(p) => {
                                assert(forall|l: int|
                                    p.1 < l <= n ==> self.root.spec_get(
                                        #[trigger] input@.take(l),
                                    ) is None);
                            },
                            None => {},
                        }
                    }
                    return best;
                },
            }
            i = i + 1;
        }
        best
    }

    /// Every registered key that prefixes the input, shortest first.
    pub fn all_prefix_matches<'a>(&'a self, input: &str) -> (r: Vec<(&'a V, usize)>)
        requires
            self.wf(),
        ensures
            forall|x: int|
                0 <= x < r@.len() ==> 1 <= (#[trigger] r@[x]).1 <= input@.len()
                    && self@.contains_key(input@.take(r@[x].1 as int)) && self@[input@.take(
                    r@[x].1 as int,
                )] == *r@[x].0,
            forall|x: int, y: int| 0 <= x < y < r@.len() ==> r@[x].1 < r@[y].1,
            forall|l: int|
                1 <= l <= input@.len() && self@.contains_key(#[trigger] input@.take(l))
                    ==> exists|x: int| 0 <= x < r@.len() && (#[trigger] r@[x]).1 == l,
    {
        let n = input.unicode_len();
        let mut node: &TrieNode<V> = &self.root;
        let mut matches: Vec<(&'a V, usize)> = Vec::new();
        let mut i: usize = 0;
        proof {
            assert(input@.take(0) =~= Seq::<char>::empty());
        }
        while i < n
            invariant
                n == input@.len(),
                i <= n,
                forall|k: Seq<char>| #[trigger] node.spec_get(k) == self.root.spec_get(
                    input@.take(i as int) + k,
                ),
                forall|x: int|
                    0 <= x < matches@.len() ==> 1 <= (#[trigger] matches@[x]).1 <= i
                        && self.root.spec_get(input@.take(matches@[x].1 as int)) == Some(
                        *matches@[x].0,
                    ),
                forall|x: int, y: int| 0 <= x < y < matches@.len() ==> matches@[x].1
                    < matches@[y].1,
                forall|l: int|
                    1 <= l <= i && self.root.spec_get(#[trigger] input@.take(l)) is Some
                        ==> exists|x: int|
                        0 <= x < matches@.len() && (#[trigger] matches@[x]).1 == l,
            decreases n - i,
        {
            let c = input.get_char(i);
            let ghost pre = input@.take(i as int);
            match find_child_idx(&node.children, c) {
                Some(j) => {
                    let child = &node.children[j].1;
                    proof {
                        assert forall|k: Seq<char>| #[trigger] child.spec_get(k)
                            == self.root.spec_get(input@.take(i + 1) + k) by {
                            let ck = seq![c] + k;
                            lemma_get_unfold(*node, ck);
                            assert(ck[0] == c && ck.drop_first() =~= k);
                            assert(node.spec_get(ck) == child.spec_get(k));
                            assert(pre + ck =~= input@.take(i + 1) + k);
                            assert(node.spec_get(ck) == self.root.spec_get(pre + ck));
                        };
                        assert(input@.take(i + 1) + Seq::<char>::empty() =~= input@.take(i + 1));
                    }
                    match &child.value {
                        Some(v) => {
                            proof {
                                assert(child.spec_get(Seq::<char>::empty()) == Some(*v));
                                assert(self.root.spec_get(input@.take(i + 1)) == Some(*v));
                            }
                            let ghost old_m = matches@;
                            matches.push((v, i + 1));
                            proof {
                                assert forall|l: int|
                                    1 <= l <= i + 1 && self.root.spec_get(
                                        #[trigger] input@.take(l),
                                    ) is Some implies exists|x: int|
                                    0 <= x < matches@.len() && (#[trigger] matches@[x]).1 == l by {
                                    if l == i + 1 {
                                        assert(matches@[matches@.len() - 1].1 == l);
                                    } else {
                                        let x = choose|x: int|
                                            0 <= x < old_m.len() && (#[trigger] old_m[x]).1 == l;
                                        assert(matches@[x].1 == l);
                                    }
                                };
                            }
                        },
                        None => {
                            proof {
                                assert(child.spec_get(Seq::<char>::empty()) is None);
                                assert(self.root.spec_get(input@.take(i + 1)) is None);
                            }
                        },
                    }
                    node = child;
                },
                None => {
                    proof {
                        assert forall|l: int|
                            i < l <= n implies self.root.spec_get(
                            #[trigger] input@.take(l),
                        ) is None by {
                            let k = input@.take(l).skip(i as int);
                            assert(pre + k =~= input@.take(l));
                            assert(k.len() > 0 && k[0] == c);
                            lemma_get_unfold(*node, k);
                            assert(node.spec_get(k) is None);
                        };
                    }
                    return matches;
                },
            }
            i = i + 1;
        }
        matches
    }
}

/// The string stands for a key of the subtree, written after the prefix.
spec fn key_entry<V>(node: TrieNode<V>, prefix: Seq<char>, s: Seq<char>) -> bool {
    exists|k: Seq<char>| node.spec_get(k) is Some && s == prefix + k
}

/// Some entry of `out` from `from` on is exactly the string `s`.
spec fn has_entry(out: Seq<String>, from: int, s: Seq<char>) -> bool {
    exists|t: int| from <= t < out.len() && (#[trigger] out[t])@ == s
}

/// Every key of the subtree appears among the entries of `out` from `from`
/// on, written after the given prefix.
spec fn keys_complete<V>(
    node: TrieNode<V>,
    prefix: Seq<char>,
    out: Seq<String>,
    from: int,
) -> bool {
    forall|k: Seq<char>| #[trigger] node.spec_get(k) is Some ==> has_entry(out, from, prefix + k)
}

/// Every entry of `out` from `from` on stands for a key of the subtree,
/// written after the given prefix.
spec fn keys_sound<V>(node: TrieNode<V>, prefix: Seq<char>, out: Seq<String>, from: int) -> bool {
    forall|t: int| from <= t < out.len() ==> key_entry(node, prefix, (#[trigger] out[t])@)
}

/// The entries of `out` from `from` on are pairwise distinct.
spec fn keys_distinct(out: Seq<String>, from: int) -> bool {
    forall|a: int, b: int| from <= a < b < out.len() ==> (#[trigger] out[a])@ != (#[trigger] out[b])@
}

/// Collect the keys of the subtree, each prefixed with the path so far:
/// exactly the stored keys, each exactly once.
fn keys_rec<V>(node: &TrieNode<V>, prefix: &String, out: &mut Vec<String>)
    requires
        node.wf(),
    ensures
        final(out)@.len() >= old(out)@.len(),
        forall|t: int| 0 <= t < old(out)@.len() ==> final(out)@[t] == old(out)@[t],
        keys_sound(*node, prefix@, final(out)@, old(out)@.len() as int),
        keys_complete(*node, prefix@, final(out)@, old(out)@.len() as int),
        keys_distinct(final(out)@, old(out)@.len() as int),
    decreases *node,
{
    let ghost base = out@.len() as int;
    if node.value.is_some() {
        out.push(prefix.clone());
        proof {
            assert(prefix@ + Seq::<char>::empty() =~= prefix@);
            assert(node.spec_get(Seq::<char>::empty()) is Some);
            assert(key_entry(*node, prefix@, out@[base]@)) by {
                assert(out@[base]@ == prefix@ + Seq::<char>::empty());
            };
            assert(has_entry(out@, base, prefix@)) by {
                assert(out@[base]@ == prefix@);
            };
        }
    }
    let n = node.children.len();
    let mut j: usize = 0;
    while j < n
        invariant
            node.wf(),
            n == node.children@.len(),
            j <= n,
            base <= out@.len(),
            forall|t: int| 0 <= t < base ==> out@[t] == old(out)@[t],
            base == old(out)@.len(),
            keys_sound(*node, prefix@, out@, base),
            forall|t: int|
                base <= t < out@.len() ==> (#[trigger] out@[t])@ == prefix@ || (out@[t]@.len()
                    > prefix@.len() && exists|jj: int|
                    0 <= jj < j && out@[t]@[prefix@.len() as int] == node.children@[jj].0),
            node.value is Some ==> has_entry(out@, base, prefix@),
            forall|k: Seq<char>|
                #[trigger] node.spec_get(k) is Some && k.len() > 0 && (exists|jj: int|
                    0 <= jj < j && k[0] == (#[trigger] node.children@[jj]).0) ==> has_entry(
                    out@,
                    base,
                    prefix@ + k,
                ),
            keys_distinct(out@, base),
        decreases n - j,
    {
        let c = node.children[j].0;
        let mut p2 = prefix.clone();
        push_char(&mut p2, c);
        let ghost mid = out@.len() as int;
        let ghost pre_out = out@;
        let child_ref = &node.children[j].1;
        let ghost child = node.children@[j as int].1;
        proof {
            lemma_wf_unfold(*node);
            assert(node.children@[j as int].1.wf());
        }
        keys_rec(child_ref, &p2, out);
        proof {
            assert(keys_sound(child, p2@, out@, mid));
            assert(keys_distinct(out@, mid));
            assert(forall|t: int| 0 <= t < j ==> node.children@[t].0 != c);
            lemma_child_in_at(node.children@, c, j as int);
            assert forall|t: int| mid <= t < out@.len() implies key_entry(
                *node,
                prefix@,
                (#[trigger] out@[t])@,
            ) && (out@[t]@.len() > prefix@.len() && out@[t]@[prefix@.len() as int] == c) by {
                assert(key_entry(child, p2@, out@[t]@));
                let k2 = choose|k2: Seq<char>|
                    child.spec_get(k2) is Some && out@[t]@ == p2@ + k2;
                let k = seq![c] + k2;
                lemma_get_unfold(*node, k);
                assert(k[0] == c && k.drop_first() =~= k2);
                assert(node.spec_get(k) is Some);
                assert(prefix@ + k =~= p2@ + k2);
                assert(out@[t]@ == prefix@ + k);
                assert(key_entry(*node, prefix@, out@[t]@));
                assert(out@[t]@[prefix@.len() as int] == c);
            };
            assert forall|t: int| base <= t < out@.len() implies key_entry(
                *node,
                prefix@,
                (#[trigger] out@[t])@,
            ) by {
                if t < mid {
                    assert(out@[t] == pre_out[t]);
                    assert(keys_sound(*node, prefix@, pre_out, base));
                    assert(key_entry(*node, prefix@, pre_out[t]@));
                }
            };
            assert(keys_sound(*node, prefix@, out@, base));
            assert(keys_complete(child, p2@, out@, mid));
            assert forall|k: Seq<char>|
                #[trigger] node.spec_get(k) is Some && k.len() > 0 && (exists|jj: int|
                    0 <= jj < j + 1 && k[0] == (#[trigger] node.children@[jj]).0) implies has_entry(
                out@,
                base,
                prefix@ + k,
            ) by {
                let jj = choose|jj: int|
                    0 <= jj < j + 1 && k[0] == (#[trigger] node.children@[jj]).0;
                if jj < j {
                    assert(has_entry(pre_out, base, prefix@ + k));
                    let t = choose|t: int|
                        base <= t < pre_out.len() && (#[trigger] pre_out[t])@ == prefix@ + k;
                    assert(out@[t]@ == prefix@ + k);
                    assert(has_entry(out@, base, prefix@ + k));
                } else {
                    assert(k[0] == c);
                    lemma_get_unfold(*node, k);
                    assert(child.spec_get(k.drop_first()) is Some);
                    assert(has_entry(out@, mid, p2@ + k.drop_first()));
                    let t = choose|t: int|
                        mid <= t < out@.len() && (#[trigger] out@[t])@ == p2@ + k.drop_first();
                    assert(prefix@ + k =~= p2@ + k.drop_first()) by {
                        assert(k =~= seq![c] + k.drop_first());
                    };
                    assert(out@[t]@ == prefix@ + k);
                    assert(has_entry(out@, base, prefix@ + k));
                }
            };
            assert(node.value is Some ==> has_entry(out@, base, prefix@)) by {
                if node.value is Some {
                    assert(has_entry(pre_out, base, prefix@));
                    let t = choose|t: int|
                        base <= t < pre_out.len() && (#[trigger] pre_out[t])@ == prefix@;
                    assert(out@[t]@ == prefix@);
                }
            };
            assert forall|a: int, b: int| base <= a < b < out@.len() implies (#[trigger] out@[a])@
                != (#[trigger] out@[b])@ by {
                if mid <= a {
                } else if b < mid {
                } else {
                    assert(out@[a] == pre_out[a]);
                    assert(mid <= b);
                    assert(out@[b]@.len() > prefix@.len() && out@[b]@[prefix@.len() as int] == c);
                    if pre_out[a]@ == prefix@ {
                        assert(out@[a]@.len() < out@[b]@.len());
                    } else {
                        let jj = choose|jj: int|
                            0 <= jj < j && pre_out[a]@[prefix@.len() as int]
                                == node.children@[jj].0;
                        assert(node.children@[jj].0 != c);
                        assert(out@[a]@[prefix@.len() as int] != out@[b]@[prefix@.len() as int]);
                    }
                }
            };
            assert(keys_distinct(out@, base));
        }
        j = j + 1;
    }
    proof {
        assert forall|k: Seq<char>| #[trigger] node.spec_get(k) is Some implies has_entry(
            out@,
            base,
            prefix@ + k,
        ) by {
            if k.len() == 0 {
                assert(node.value is Some);
                assert(has_entry(out@, base, prefix@));
                let t = choose|t: int|
                    base <= t < out@.len() && (#[trigger] out@[t])@ == prefix@;
                assert(out@[t]@ =~= prefix@ + k);
            } else {
                lemma_get_unfold(*node, k);
                assert(spec_child_in(node.children@, k[0]) is Some);
                assert(exists|jj: int| 0 <= jj < n && k[0] == (#[trigger] node.children@[jj]).0)
                    by {
                    if forall|jj: int|
                        0 <= jj < n ==> k[0] != (#[trigger] node.children@[jj]).0 {
                        lemma_child_in_none(node.children@, k[0]);
                    }
                };
            }
        };
    }
}

impl<V> PrefixTrie<V> {
    /// Every key of the trie, each exactly once, in unspecified order.
    pub fn keys(&self) -> (r: Vec<String>)
        requires
            self.wf(),
        ensures
            forall|t: int| 0 <= t < r@.len() ==> self@.contains_key((#[trigger] r@[t])@),
            forall|k: Seq<char>|
                self@.contains_key(k) ==> exists|t: int|
                    0 <= t < r@.len() && (#[trigger] r@[t])@ == k,
            forall|a: int, b: int| 0 <= a < b < r@.len() ==> r@[a]@ != r@[b]@,
    {
        let mut out: Vec<String> = Vec::new();
        let empty = String::new();
        keys_rec(&self.root, &empty, &mut out);
        proof {
            assert(keys_sound(self.root, empty@, out@, 0));
            assert forall|t: int| 0 <= t < out@.len() implies self@.contains_key(
                (#[trigger] out@[t])@,
            ) by {
                assert(key_entry(self.root, empty@, out@[t]@));
                let k = choose|k: Seq<char>|
                    self.root.spec_get(k) is Some && out@[t]@ == empty@ + k;
                assert(empty@ + k =~= k);
            };
            assert(keys_complete(self.root, empty@, out@, 0));
            assert forall|k: Seq<char>| self@.contains_key(k) implies exists|t: int|
                0 <= t < out@.len() && (#[trigger] out@[t])@ == k by {
                assert(self.root.spec_get(k) is Some);
                assert(has_entry(out@, 0, empty@ + k));
                let t = choose|t: int|
                    0 <= t < out@.len() && (#[trigger] out@[t])@ == empty@ + k;
                assert(empty@ + k =~= k);
                assert(out@[t]@ == k);
            };
            assert(keys_distinct(out@, 0));
            assert(forall|a: int, b: int| 0 <= a < b < out@.len() ==> (#[trigger] out@[a])@ != (
            #[trigger] out@[b])@);
        }
        out
    }

    /// Every key of the trie that starts with the given prefix, each exactly
    /// once, in unspecified order.
    pub fn keys_with_prefix(&self, prefix: &str) -> (r: Vec<String>)
        requires
            self.wf(),
        ensures
            forall|t: int|
                0 <= t < r@.len() ==> self@.contains_key((#[trigger] r@[t])@)
                    && prefix@.is_prefix_of(r@[t]@),
            forall|k: Seq<char>|
                self@.contains_key(k) && prefix@.is_prefix_of(k) ==> exists|t: int|
                    0 <= t < r@.len() && (#[trigger] r@[t])@ == k,
            forall|a: int, b: int| 0 <= a < b < r@.len() ==> r@[a]@ != r@[b]@,
    {
        let n = prefix.unicode_len();
        let mut node: &TrieNode<V> = &self.root;
        let mut i: usize = 0;
        proof {
            assert(prefix@.take(0) =~= Seq::<char>::empty());
        }
        while i < n
            invariant
                self.wf(),
                n == prefix@.len(),
                i <= n,
                node.wf(),
                forall|k: Seq<char>| #[trigger] node.spec_get(k) == self.root.spec_get(
                    prefix@.take(i as int) + k,
                ),
            decreases n - i,
        {
            let c = prefix.get_char(i);
            let ghost pre = prefix@.take(i as int);
            proof {
                lemma_wf_unfold(*node);
            }
            match find_child_idx(&node.children, c) {
                Some(j) => {
                    let next = &node.children[j].1;
                    proof {
                        assert(node.children@[j as int].1.wf());
                        assert forall|k: Seq<char>| #[trigger] next.spec_get(k)
                            == self.root.spec_get(prefix@.take(i + 1) + k) by {
                            let ck = seq![c] + k;
                            lemma_get_unfold(*node, ck);
                            assert(ck[0] == c && ck.drop_first() =~= k);
                            assert(pre + ck =~= prefix@.take(i + 1) + k);
                        };
                    }
                    node = next;
                },
                None => {
                    proof {
                        assert forall|k: Seq<char>|
                            self@.contains_key(k) implies !prefix@.is_prefix_of(k) by {
                            if prefix@.is_prefix_of(k) {
                                let rest = k.skip(i as int);
                                assert(pre + rest =~= k);
                                assert(rest.len() > 0 && rest[0] == c) by {
                                    assert(k[i as int] == prefix@[i as int]);
                                };
                                lemma_get_unfold(*node, rest);
                                assert(node.spec_get(rest) is None);
                                assert(self.root.spec_get(k) is None);
                            }
                        };
                    }
                    return Vec::new();
                },
            }
            i = i + 1;
        }
        let mut out: Vec<String> = Vec::new();
        let p = prefix.to_owned();
        keys_rec(node, &p, &mut out);
        proof {
            assert(prefix@.take(n as int) =~= prefix@);
            assert(keys_sound(*node, p@, out@, 0));
            assert forall|t: int| 0 <= t < out@.len() implies self@.contains_key(
                (#[trigger] out@[t])@,
            ) && prefix@.is_prefix_of(out@[t]@) by {
                assert(key_entry(*node, p@, out@[t]@));
                let k = choose|k: Seq<char>|
                    node.spec_get(k) is Some && out@[t]@ == p@ + k;
                assert(node.spec_get(k) == self.root.spec_get(prefix@ + k));
                assert((prefix@ + k).take(prefix@.len() as int) =~= prefix@);
            };
            assert(keys_complete(*node, p@, out@, 0));
            assert forall|k: Seq<char>|
                self@.contains_key(k) && prefix@.is_prefix_of(k) implies exists|t: int|
                0 <= t < out@.len() && (#[trigger] out@[t])@ == k by {
                let rest = k.skip(n as int);
                assert(prefix@ + rest =~= k);
                assert(node.spec_get(rest) == self.root.spec_get(k));
                assert(node.spec_get(rest) is Some);
                assert(has_entry(out@, 0, p@ + rest));
                let t = choose|t: int|
                    0 <= t < out@.len() && (#[trigger] out@[t])@ == p@ + rest;
                assert(out@[t]@ == k);
            };
            assert(keys_distinct(out@, 0));
            assert(forall|a: int, b: int| 0 <= a < b < out@.len() ==> (#[trigger] out@[a])@ != (
            #[trigger] out@[b])@);
        }
        out
    }
}

/// Law: looking a key up returns the last value inserted under it. Stated
/// over the map view that `insert` and `get` are specified against.
pub proof fn lemma_get_returns_last_insert<V>(
    m: Map<Seq<char>, V>,
    key: Seq<char>,
    v1: V,
    v2: V,
)
    ensures
        m.insert(key, v1).insert(key, v2).contains_key(key),
        m.insert(key, v1).insert(key, v2)[key] == v2,
{
}

/// Law: a longest-prefix match on a string that is itself a stored key
/// consumes the whole string and returns that key's value. The premises are
/// exactly what `longest_prefix_match` ensures of a returned match.
pub proof fn lemma_lpm_on_exact_key<V>(
    m: Map<Seq<char>, V>,
    input: Seq<char>,
    v: V,
    l: int,
)
    requires
        input.len() >= 1,
        m.contains_key(input),
        1 <= l <= input.len(),
        m.contains_key(input.take(l)),
        m[input.take(l)] == v,
        forall|l2: int| l < l2 <= input.len() ==> !m.contains_key(#[trigger] input.take(l2)),
    ensures
        l == input.len(),
        v == m[input],
{
    assert(input.take(input.len() as int) =~= input);
}

/// Law: after removing a key, looking it up returns nothing, and every other
/// key keeps its value.
pub proof fn lemma_remove_keeps_others<V>(m: Map<Seq<char>, V>, key: Seq<char>, other: Seq<char>)
    requires
        other != key,
    ensures
        !m.remove(key).contains_key(key),
        m.remove(key).contains_key(other) == m.contains_key(other),
        m.contains_key(other) ==> m.remove(key)[other] == m[other],
{
}

} // verus!



