//! A simple connection pool: a fixed list of connections that are handed out
//! in turn. A connection is never owned by the one who was handed it: the
//! pool may be smaller than the number of those who ask. The pool itself is
//! shared too: every call draws the next number from one counter, and the
//! number says whose turn it is.

use std::sync::atomic::{AtomicUsize, Ordering};
use vstd::arithmetic::div_mod::{
    lemma_fundamental_div_mod, lemma_fundamental_div_mod_converse_mod, lemma_mod_bound,
    lemma_mod_equivalence, lemma_small_mod,
};
use vstd::prelude::*;

verus! {

/// The connections, and the counter that numbers the calls.
pub struct LdapPool<C> {
    conns: Vec<C>,
    index: AtomicUsize,
}

/// The connection whose turn it is at the call with the number `ticket`, in
/// a pool of `size` connections.
pub open spec fn turn(ticket: nat, size: nat) -> nat {
    ticket % size
}

/// Whether connection `conn` has its turn at one of the `size` calls with
/// the numbers `from` to `from + size - 1`.
pub open spec fn served(size: nat, from: nat, conn: nat) -> bool {
    exists|ticket: nat| from <= ticket < from + size && #[trigger] turn(ticket, size) == conn
}

/// Round robin: among any `size` calls in a row, which have the numbers
/// `from` to `from + size - 1`, every connection of the pool has its turn,
/// and none of them twice.
pub proof fn lemma_round_robin(size: nat, from: nat)
    requires
        size > 0,
    ensures
        forall|ticket: nat| #[trigger] turn(ticket, size) < size,
        forall|a: nat, b: nat|
            from <= a < b < from + size ==> #[trigger] turn(a, size) != #[trigger] turn(b, size),
        forall|conn: nat| conn < size ==> #[trigger] served(size, from, conn),
{
    assert forall|ticket: nat| #[trigger] turn(ticket, size) < size by {
        lemma_mod_bound(ticket as int, size as int);
    }
    assert forall|a: nat, b: nat| from <= a < b < from + size implies #[trigger] turn(a, size)
        != #[trigger] turn(b, size) by {
        if a % size == b % size {
            lemma_mod_equivalence(b as int, a as int, size as int);
            lemma_small_mod((b - a) as nat, size);
        }
    }
    assert forall|conn: nat| conn < size implies #[trigger] served(size, from, conn) by {
        let first = from % size;
        let q = from as int / size as int;
        lemma_fundamental_div_mod(from as int, size as int);
        lemma_mod_bound(from as int, size as int);
        let ticket: nat = if conn >= first {
            (from + conn - first) as nat
        } else {
            (from + conn + size - first) as nat
        };
        if conn >= first {
            assert(ticket == q * size + conn) by (nonlinear_arith)
                requires
                    from == size * q + first,
                    ticket == from + conn - first,
            ;
            lemma_fundamental_div_mod_converse_mod(ticket as int, size as int, q, conn as int);
        } else {
            assert(ticket == (q + 1) * size + conn) by (nonlinear_arith)
                requires
                    from == size * q + first,
                    ticket == from + conn + size - first,
            ;
            lemma_fundamental_div_mod_converse_mod(ticket as int, size as int, q + 1, conn as int);
        }
        assert(turn(ticket, size) == conn);
    }
}

impl<C> LdapPool<C> {
    /// The connections of the pool.
    pub closed spec fn connections(&self) -> Seq<C> {
        self.conns@
    }

    /// Creates a new pool of the given connections. The calls are numbered
    /// from 0, so the first of the connections is handed out first.
    pub fn new(conns: Vec<C>) -> (pool: Self)
        ensures
            pool.connections() == conns@,
    {
        LdapPool { conns, index: AtomicUsize::new(0) }
    }

    /// The number of connections.
    pub fn size(&self) -> (size: usize)
        ensures
            size == self.connections().len(),
    {
        self.conns.len()
    }

    /// Draws the number of this call and moves the counter on, in one step.
    /// After the largest number the counter starts again at 0.
    fn draw(&self) -> usize {
        self.index.fetch_add(1, Ordering::SeqCst)
    }

    /// The connection whose turn it is at the call with the number `ticket`.
    pub fn conn_at(&self, ticket: usize) -> (conn: &C)
        requires
            self.connections().len() > 0,
        ensures
            turn(ticket as nat, self.connections().len()) < self.connections().len(),
            *conn == self.connections()[turn(ticket as nat, self.connections().len()) as int],
    {
        &self.conns[ticket % self.conns.len()]
    }

    /// Returns one of the connections. The connections are shared using
    /// round-robin: the call draws the next number from the pool's counter
    /// and returns the connection whose turn it is at that number.
    pub fn get_conn(&self) -> (conn: &C)
        requires
            self.connections().len() > 0,
        ensures
            exists|ticket: usize|
                *conn == self.connections()[#[trigger] turn(
                    ticket as nat,
                    self.connections().len(),
                ) as int],
            self.connections().contains(*conn),
    {
        let ticket = self.draw();
        self.conn_at(ticket)
    }
}

} // verus!
