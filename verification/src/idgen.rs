//! Fresh names for what a node stores: chunks and partitions.
//!
//! A name ends in a hyphen and a number. One generator, owned by the node,
//! counts the numbers up from zero and never gives one twice, so no two
//! names that it gives are the same, whatever stands before the hyphen.
use crate::text::{decimal, lemma_decimal_injective, lemma_decimal_no_hyphen, render_u64};
use vstd::prelude::*;
use vstd::string::*;

verus! {

/// The text `prefix-n`.
pub open spec fn numbered(prefix: Seq<char>, n: nat) -> Seq<char> {
    prefix + seq!['-'] + decimal(n)
}

/// The name of the `n`-th chunk of node `node`: `node-n`.
pub open spec fn chunk_id(node: Seq<char>, n: nat) -> Seq<char> {
    numbered(node, n)
}

/// What stands before the number in the name of a partition:
/// `part-index-node`.
pub open spec fn part_prefix(index: nat, node: Seq<char>) -> Seq<char> {
    seq!['p', 'a', 'r', 't', '-'] + decimal(index) + seq!['-'] + node
}

/// The name of a partition: `part-index-node-n`.
pub open spec fn part_id(index: nat, node: Seq<char>, n: nat) -> Seq<char> {
    numbered(part_prefix(index, node), n)
}

/// Names with different numbers are different names.
pub proof fn lemma_numbered_distinct(a: Seq<char>, n: nat, b: Seq<char>, m: nat)
    requires
        n != m,
    ensures
        numbered(a, n) != numbered(b, m),
{
    let x = numbered(a, n);
    let y = numbered(b, m);
    let dn = decimal(n);
    let dm = decimal(m);
    if x == y {
        assert(x.len() == a.len() + 1 + dn.len());
        assert(y.len() == b.len() + 1 + dm.len());
        if dn.len() == dm.len() {
            assert(dn =~= x.subrange(a.len() as int + 1, x.len() as int));
            assert(dm =~= y.subrange(b.len() as int + 1, y.len() as int));
            lemma_decimal_injective(n, m);
        } else if dn.len() < dm.len() {
            let at = a.len() as int;
            assert(x[at] == '-');
            assert(y[at] == dm[at - b.len() - 1]);
            lemma_decimal_no_hyphen(m, at - b.len() - 1);
        } else {
            let at = b.len() as int;
            assert(y[at] == '-');
            assert(x[at] == dn[at - a.len() - 1]);
            lemma_decimal_no_hyphen(n, at - a.len() - 1);
        }
    }
}

/// No numbered name is the name of the root.
pub proof fn lemma_numbered_not_root(prefix: Seq<char>, n: nat)
    ensures
        numbered(prefix, n) != seq!['R', 'O', 'O', 'T'],
{
    let x = numbered(prefix, n);
    let root = seq!['R', 'O', 'O', 'T'];
    if x == root {
        assert(x.len() == prefix.len() + 1 + decimal(n).len());
        assert(root.len() == 4);
        assert(x[prefix.len() as int] == '-');
        assert(root[0] != '-' && root[1] != '-' && root[2] != '-' && root[3] != '-');
    }
}

/// The generator of the numbers in names.
#[derive(Debug)]
pub struct IdGen {
    issued: u64,
}

impl IdGen {
    /// How many numbers have been given out. The last one given is this
    /// number itself.
    pub closed spec fn issued(&self) -> nat {
        self.issued as nat
    }

    /// The count of numbers given out fits in 64 bits.
    pub proof fn lemma_issued_bound(&self)
        ensures
            self.issued() <= u64::MAX,
    {
    }

    /// A generator that has given out nothing.
    pub fn new() -> (r: IdGen)
        ensures
            r.issued() == 0,
    {
        IdGen { issued: 0 }
    }

    /// How many numbers have been given out.
    pub fn count(&self) -> (r: u64)
        ensures
            r == self.issued(),
    {
        self.issued
    }

    /// How many numbers are left.
    pub fn remaining(&self) -> (r: u64)
        ensures
            r == u64::MAX - self.issued(),
    {
        u64::MAX - self.issued
    }

    /// The next number. `None`, and nothing changes, when the numbers have
    /// run out.
    pub fn next_number(&mut self) -> (r: Option<u64>)
        ensures
            match r {
                Some(n) => n == old(self).issued() + 1 && final(self).issued() == n,
                None => old(self).issued() == u64::MAX && final(self).issued() == old(
                    self,
                ).issued(),
            },
    {
        if self.issued == u64::MAX {
            None
        } else {
            self.issued = self.issued + 1;
            Some(self.issued)
        }
    }

    /// A fresh chunk name for node `node_id`. `None`, and nothing changes,
    /// when the numbers have run out.
    pub fn next_id(&mut self, node_id: &str) -> (r: Option<String>)
        ensures
            match r {
                Some(id) => {
                    &&& old(self).issued() < u64::MAX
                    &&& final(self).issued() == old(self).issued() + 1
                    &&& id@ == chunk_id(node_id@, final(self).issued())
                },
                None => old(self).issued() == u64::MAX && final(self).issued() == old(
                    self,
                ).issued(),
            },
    {
        match self.next_number() {
            None => None,
            Some(n) => Some(numbered_text(String::from_str(node_id), n)),
        }
    }

    /// A fresh name for a partition with index `index`, of node `node_id`.
    /// `None`, and nothing changes, when the numbers have run out.
    pub fn next_part_id(&mut self, index: u64, node_id: &str) -> (r: Option<String>)
        ensures
            match r {
                Some(id) => {
                    &&& old(self).issued() < u64::MAX
                    &&& final(self).issued() == old(self).issued() + 1
                    &&& id@ == part_id(index as nat, node_id@, final(self).issued())
                },
                None => old(self).issued() == u64::MAX && final(self).issued() == old(
                    self,
                ).issued(),
            },
    {
        match self.next_number() {
            None => None,
            Some(n) => {
                let mut prefix = String::from_str("part-");
                proof {
                    reveal_strlit("part-");
                    reveal_strlit("-");
                    assert("part-"@ =~= seq!['p', 'a', 'r', 't', '-']);
                    assert("-"@ =~= seq!['-']);
                }
                prefix.append(render_u64(index).as_str());
                prefix.append("-");
                prefix.append(node_id);
                Some(numbered_text(prefix, n))
            },
        }
    }
}

/// The text `prefix-n`.
fn numbered_text(prefix: String, n: u64) -> (r: String)
    ensures
        r@ == numbered(prefix@, n as nat),
{
    let mut id = prefix;
    proof {
        reveal_strlit("-");
        assert("-"@ =~= seq!['-']);
    }
    id.append("-");
    id.append(render_u64(n).as_str());
    id
}

} // verus!
