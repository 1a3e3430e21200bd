//! A prefix tree from literal texts to payloads, looked up by longest match.

use vstd::prelude::*;
use crate::chars::{lemma_utf8_size_push, utf8_size};
use crate::lexer::str_head_tail;
use crate::scanner::{moved, walk_position, Scanner};

verus! {

/// An edge of the tree: the character that leads to a node.
pub struct Branch<T> {
    key: char,
    node: Trie<T>,
}

/// A prefix tree. Each node may hold a payload, that of the text that leads
/// to it from the root.
pub struct Trie<T> {
    data: Option<T>,
    branches: Vec<Branch<T>>,
}

/// The node behind the first of `branches` that is labelled `c`.
pub closed spec fn find_branch<T>(branches: Seq<Branch<T>>, c: char) -> Option<Trie<T>>
    decreases branches.len(),
{
    if branches.len() == 0 {
        None
    } else if branches[0].key == c {
        Some(branches[0].node)
    } else {
        find_branch(branches.drop_first(), c)
    }
}

/// Where the first of `branches` that is labelled `c` stands, or the number
/// of branches if there is none.
spec fn branch_index<T>(branches: Seq<Branch<T>>, c: char) -> int
    decreases branches.len(),
{
    if branches.len() == 0 {
        0
    } else if branches[0].key == c {
        0
    } else {
        1 + branch_index(branches.drop_first(), c)
    }
}

proof fn lemma_branch_index<T>(branches: Seq<Branch<T>>, c: char)
    ensures
        0 <= branch_index(branches, c) <= branches.len(),
        forall|k: int| 0 <= k < branch_index(branches, c) ==> (#[trigger] branches[k]).key != c,
        branch_index(branches, c) < branches.len() ==> {
            &&& branches[branch_index(branches, c)].key == c
            &&& find_branch(branches, c) == Some(branches[branch_index(branches, c)].node)
        },
        branch_index(branches, c) == branches.len() ==> find_branch(branches, c) is None,
    decreases branches.len(),
{
    if branches.len() > 0 && branches[0].key != c {
        let rest = branches.drop_first();
        lemma_branch_index(rest, c);
        assert forall|k: int| 0 <= k < branch_index(branches, c) implies (
        #[trigger] branches[k]).key != c by {
            if k > 0 {
                assert(branches[k] == rest[k - 1]);
            }
        }
    }
}

/// The first branch with a label is the one that a search from the left finds.
proof fn lemma_first_branch<T>(branches: Seq<Branch<T>>, c: char, i: int)
    requires
        0 <= i <= branches.len(),
        forall|k: int| 0 <= k < i ==> (#[trigger] branches[k]).key != c,
        i < branches.len() ==> branches[i].key == c,
    ensures
        branch_index(branches, c) == i,
{
    lemma_branch_index(branches, c);
    let j = branch_index(branches, c);
    if j < i {
        assert(branches[j].key != c);
    }
}

/// A branch put after the others is found under its label if none of them
/// has that label, and hides nothing.
proof fn lemma_find_after_push<T>(branches: Seq<Branch<T>>, added: Branch<T>)
    ensures
        forall|c: char|
            #[trigger] find_branch(branches.push(added), c) == (if find_branch(branches, c)
                is None && c == added.key {
                Some(added.node)
            } else {
                find_branch(branches, c)
            }),
    decreases branches.len(),
{
    assert forall|c: char|
        #[trigger] find_branch(branches.push(added), c) == (if find_branch(branches, c) is None
            && c == added.key {
            Some(added.node)
        } else {
            find_branch(branches, c)
        }) by {
        if branches.len() == 0 {
            assert(branches.push(added).drop_first() =~= branches);
        } else {
            assert(branches.push(added).drop_first() =~= branches.drop_first().push(added));
            lemma_find_after_push(branches.drop_first(), added);
        }
    }
}

/// A new node behind the first branch with a label is found under that
/// label, and the other labels lead where they led.
proof fn lemma_find_after_update<T>(branches: Seq<Branch<T>>, i: int, node: Trie<T>)
    requires
        0 <= i < branches.len(),
        branch_index(branches, branches[i].key) == i,
    ensures
        forall|c: char|
            #[trigger] find_branch(branches.update(i, Branch { key: branches[i].key, node }), c)
                == (if c == branches[i].key {
                Some(node)
            } else {
                find_branch(branches, c)
            }),
    decreases branches.len(),
{
    let label = branches[i].key;
    let changed = branches.update(i, Branch { key: label, node });
    let rest = branches.drop_first();
    if i == 0 {
        assert(changed.drop_first() =~= rest);
    } else {
        assert(rest[i - 1] == branches[i]);
        assert(branches[0].key != label);
        assert(changed.drop_first() =~= rest.update(i - 1, Branch { key: label, node }));
        lemma_find_after_update(rest, i - 1, node);
    }
    assert forall|c: char|
        #[trigger] find_branch(changed, c) == (if c == label {
            Some(node)
        } else {
            find_branch(branches, c)
        }) by {
        assert(changed[0].key == branches[0].key);
        if branches[0].key != c {
            assert(find_branch(changed, c) == find_branch(changed.drop_first(), c));
            assert(find_branch(branches, c) == find_branch(rest, c));
            if i > 0 {
                assert(find_branch(rest.update(i - 1, Branch { key: rest[i - 1].key, node }), c)
                    == (if c == rest[i - 1].key {
                    Some(node)
                } else {
                    find_branch(rest, c)
                }));
            }
        }
    }
}

impl<T> Trie<T> {
    /// The node that the character `c` leads to from this one.
    pub closed spec fn child(&self, c: char) -> Option<Trie<T>> {
        find_branch(self.branches@, c)
    }

    /// The payload of this node.
    pub closed spec fn payload(&self) -> Option<T> {
        self.data
    }

    /// The payload that `key` leads to, if the tree holds `key`.
    pub open spec fn lookup(&self, key: Seq<char>) -> Option<T>
        decreases key.len(),
    {
        if key.len() == 0 {
            self.payload()
        } else {
            match self.child(key[0]) {
                Some(node) => node.lookup(key.drop_first()),
                None => None,
            }
        }
    }

    /// Whether the first `n` characters of `input` are the longest text of
    /// the tree that `input` begins with. The empty text never matches.
    pub open spec fn longest_match(&self, input: Seq<char>, n: int) -> bool {
        &&& 1 <= n <= input.len()
        &&& self.lookup(input.take(n)) is Some
        &&& forall|m: int| n < m <= input.len() ==> (#[trigger] self.lookup(input.take(m))) is None
    }

    /// Whether `input` begins with no text of the tree.
    pub open spec fn no_match(&self, input: Seq<char>) -> bool {
        forall|m: int| 1 <= m <= input.len() ==> (#[trigger] self.lookup(input.take(m))) is None
    }

    /// The tree that holds no text.
    pub fn new() -> (r: Trie<T>)
        ensures
            forall|key: Seq<char>| (#[trigger] r.lookup(key)) is None,
    {
        let r = Trie { data: None, branches: Vec::new() };
        proof {
            assert forall|key: Seq<char>| (#[trigger] r.lookup(key)) is None by {
                if key.len() > 0 {
                    assert(r.child(key[0]) is None);
                }
            }
        }
        r
    }

    /// Puts `value` under the text `key`, in place of what was there, and
    /// leaves every other text as it was. Returns `true`.
    pub fn set(&mut self, key: &str, value: T) -> (r: bool)
        ensures
            r,
            forall|other: Seq<char>| #[trigger]
                final(self).lookup(other) == (if other == key@ {
                    Some(value)
                } else {
                    old(self).lookup(other)
                }),
        decreases key@.len(),
    {
        let ghost text = key@;
        let ghost before = *self;
        if key.is_empty() {
            self.data = Some(value);
            proof {
                assert forall|other: Seq<char>| #[trigger]
                    self.lookup(other) == (if other == text {
                        Some(value)
                    } else {
                        before.lookup(other)
                    }) by {
                    if other.len() == 0 {
                        assert(other =~= text);
                    } else {
                        assert(self.child(other[0]) == before.child(other[0]));
                    }
                }
            }
            return true;
        }
        let (c, rest) = str_head_tail(key);

        let found = self.branch_of(c);
        let i = match found {
            Some(i) => i,
            None => {
                let fresh = Branch { key: c, node: Trie::new() };
                proof {
                    lemma_find_after_push(before.branches@, fresh);
                }
                self.branches.push(fresh);
                self.branches.len() - 1
            },
        };
        let ghost middle = *self;
        let ghost below = self.branches@[i as int].node;
        proof {
            lemma_branch_index(before.branches@, c);
            assert forall|k: int| 0 <= k < i implies (#[trigger] middle.branches@[k]).key != c by {
                assert(middle.branches@[k] == before.branches@[k]);
            }
            lemma_first_branch(middle.branches@, c, i as int);
            lemma_branch_index(middle.branches@, c);
            assert forall|other: Seq<char>| #[trigger]
                middle.lookup(other) == before.lookup(other) by {
                if other.len() > 0 {
                    if other[0] == c && found is None {
                        assert(before.child(c) is None);
                        assert(below.lookup(other.drop_first()) is None);
                    } else {
                        assert(middle.child(other[0]) == before.child(other[0]));
                    }
                }
            }
        }
        self.branches[i].node.set(rest, value);
        proof {
            let after = self.branches@[i as int].node;
            assert(self.branches@ =~= middle.branches@.update(
                i as int,
                Branch { key: c, node: after },
            ));
            lemma_find_after_update(middle.branches@, i as int, after);
            assert forall|other: Seq<char>| #[trigger]
                self.lookup(other) == (if other == text {
                    Some(value)
                } else {
                    before.lookup(other)
                }) by {
                if other.len() > 0 {
                    if other[0] == c {
                        assert(self.child(c) == Some(after));
                        assert(middle.child(c) == Some(below));
                        assert(text[0] == c);
                        if text.drop_first() == other.drop_first() {
                            assert(text.len() == text.drop_first().len() + 1);
                            assert(other.len() == other.drop_first().len() + 1);
                            assert forall|k: int| 0 <= k < text.len() implies text[k]
                                == other[k] by {
                                if k > 0 {
                                    assert(text[k] == text.drop_first()[k - 1]);
                                    assert(other[k] == other.drop_first()[k - 1]);
                                }
                            }
                            assert(text =~= other);
                        }
                        assert(after.lookup(other.drop_first()) == (if other.drop_first()
                            == text.drop_first() {
                            Some(value)
                        } else {
                            below.lookup(other.drop_first())
                        }));
                        assert(middle.lookup(other) == below.lookup(other.drop_first()));
                    } else {
                        assert(self.child(other[0]) == middle.child(other[0]));
                    }
                }
            }
        }
        true
    }

    /// The payload of this node, borrowed.
    fn value_ref(&self) -> (r: Option<&T>)
        ensures
            r == (match self.payload() {
                Some(expr) => Some(&expr),
                None => None,
            }),
    {
        match &self.data {
            Some(expr) => Some(expr),
            None => None,
        }
    }

    /// Where the branch labelled `c` stands among the branches, if there is
    /// one.
    fn branch_of(&self, c: char) -> (r: Option<usize>)
        ensures
            match r {
                Some(i) => i < self.branches@.len() && i == branch_index(self.branches@, c)
                    && self.child(c) == Some(self.branches@[i as int].node),
                None => self.child(c) is None && branch_index(self.branches@, c)
                    == self.branches@.len(),
            },
    {
        let mut i: usize = 0;
        while i < self.branches.len()
            invariant
                i <= self.branches.len(),
                forall|k: int| 0 <= k < i ==> (#[trigger] self.branches@[k]).key != c,
            decreases self.branches.len() - i,
        {
            if self.branches[i].key == c {
                proof {
                    lemma_first_branch(self.branches@, c, i as int);
                    lemma_branch_index(self.branches@, c);
                }
                return Some(i);
            }
            i += 1;
        }
        proof {
            lemma_first_branch(self.branches@, c, i as int);
            lemma_branch_index(self.branches@, c);
        }
        None
    }

    /// Looks for the longest text of the tree that the rest of the input
    /// begins with. If there is one, the cursor moves past it, and the result
    /// is its payload and its size in bytes. If there is none, the cursor
    /// stays where it was.
    pub fn get<'a, 'b, 'c>(&'a self, data: &'b mut Scanner<'c>) -> (r: Option<(&'a T, usize)>)
        ensures
            match r {
                Some((payload, shift)) => {
                    let n = old(data).remaining().len() - final(data).remaining().len();
                    &&& self.longest_match(old(data).remaining(), n)
                    &&& Some(*payload) == self.lookup(old(data).remaining().take(n))
                    &&& shift == utf8_size(old(data).remaining().take(n))
                    &&& moved(*old(data), *final(data), n)
                },
                None => self.no_match(old(data).remaining()) && *final(data) == *old(data),
            },
    {
        let ghost input = data.remaining();
        let ghost start = data.spec_position();
        let ghost mut n: int = 0;
        let ghost mut best: int = 0;
        let mut root = self;
        let mut last: Option<&T> = None;
        let mut last_shift: usize = 0;
        let mut shift: usize = 0;
        let mut other = data.backup();
        if data.eol() {
            return None;
        }
        proof {
            assert(input.skip(0) =~= input);
            assert(input.take(0) =~= Seq::<char>::empty());
            assert forall|key: Seq<char>| #[trigger] root.lookup(key) == self.lookup(
                input.take(0) + key,
            ) by {
                assert(input.take(0) + key =~= key);
            }
        }
        loop
            invariant
                0 <= best <= n <= input.len(),
                utf8_size(input) <= usize::MAX,
                data.remaining() == input.skip(n),
                data.spec_position() == walk_position(start, input.take(n)),
                shift == utf8_size(input.take(n)),
                forall|key: Seq<char>| #[trigger]
                    root.lookup(key) == self.lookup(input.take(n) + key),
                forall|m: int| best < m <= n ==> (#[trigger] self.lookup(input.take(m))) is None,
                last is None <==> best == 0,
                best == 0 ==> other == *old(data),
                best > 0 ==> {
                    &&& Some(*last->0) == self.lookup(input.take(best))
                    &&& last_shift == utf8_size(input.take(best))
                    &&& other.remaining() == input.skip(best)
                    &&& other.spec_position() == walk_position(start, input.take(best))
                },
            ensures
                0 <= best <= input.len(),
                forall|m: int|
                    best < m <= input.len() ==> (#[trigger] self.lookup(input.take(m))) is None,
                last is None <==> best == 0,
                best == 0 ==> other == *old(data),
                best > 0 ==> {
                    &&& Some(*last->0) == self.lookup(input.take(best))
                    &&& last_shift == utf8_size(input.take(best))
                    &&& other.remaining() == input.skip(best)
                    &&& other.spec_position() == walk_position(start, input.take(best))
                },
            decreases input.len() - n,
        {
            if data.eol() {
                break;
            }
            let c = data.top();
            let next = root.branch_of(c);
            let mut last_set = false;
            match next {
                Some(i) => {
                    let ghost above = root;
                    root = &root.branches[i].node;
                    proof {
                        assert(input.take(n + 1) =~= input.take(n).push(c));
                        assert forall|key: Seq<char>| #[trigger]
                            root.lookup(key) == self.lookup(input.take(n + 1) + key) by {
                            let longer = seq![c] + key;
                            assert(longer.drop_first() =~= key);
                            assert(above.lookup(longer) == root.lookup(key));
                            assert(input.take(n) + longer =~= input.take(n + 1) + key);
                        }
                        assert(input.take(n + 1) + Seq::<char>::empty() =~= input.take(n + 1));
                    }
                    if !root.data.is_none() {
                        last = root.value_ref();
                        last_set = true;
                        proof {
                            assert(root.lookup(Seq::<char>::empty()) == root.payload());
                            assert(Some(*last->0) == self.lookup(input.take(n + 1)));
                        }
                    }
                    proof {
                        if !last_set {
                            assert(root.lookup(Seq::<char>::empty()) == root.payload());
                            assert(self.lookup(input.take(n + 1)) is None);
                        }
                    }
                },
                None => {
                    proof {
                        assert forall|m: int| n < m <= input.len() implies (#[trigger] self.lookup(
                            input.take(m),
                        )) is None by {
                            let rest = input.subrange(n, m);
                            assert(input.take(n) + rest =~= input.take(m));
                            assert(rest[0] == c);
                            assert(root.lookup(rest) is None);
                        }
                    }
                    break;
                },
            }
            proof {
                assert(input.skip(n).drop_first() =~= input.skip(n + 1));
                assert(input.take(n + 1).drop_last() =~= input.take(n));
                lemma_utf8_size_push(input.take(n), c);
                crate::chars::lemma_utf8_size_is_encoding_len(input.take(n + 1));
                lemma_size_of_prefix(input, n + 1);
            }
            shift += data.advance();
            proof {
                n = n + 1;
            }
            if last_set {
                last_shift = shift;
                other = data.backup();
                proof {
                    best = n;
                }
            }
        }
        data.restore(&other);
        proof {
            if best > 0 {
                assert(input.len() - input.skip(best).len() == best);
            }
        }
        match last {
            Some(expr) => Some((expr, last_shift)),
            None => None,
        }
    }
}

/// A prefix of a text is not larger than the text.
pub proof fn lemma_size_of_prefix(text: Seq<char>, n: int)
    requires
        0 <= n <= text.len(),
    ensures
        utf8_size(text.take(n)) <= utf8_size(text),
    decreases text.len() - n,
{
    if n < text.len() {
        assert(text.take(n + 1) =~= text.take(n).push(text[n]));
        lemma_utf8_size_push(text.take(n), text[n]);
        lemma_size_of_prefix(text, n + 1);
    } else {
        assert(text.take(n) =~= text);
    }
}

} // verus!
