//! The session token store: maps each opaque login token to a player id.
//!
//! A token is minted exactly once per successful login and never reused: the
//! store keeps a serial counter, and a token is the decimal spelling of the
//! serial it was minted from, which makes freshness a provable property
//! rather than a probabilistic one.
use vstd::prelude::*;
use vstd::string::StringExecFns;
use crate::login::{dec_val, digit_val, all_digits, is_dec_digit};

verus! {

/// The decimal digit character for a value below ten.
pub open spec fn dec_digit(d: nat) -> char
    recommends
        d < 10,
{
    if d == 0 {
        '0'
    } else if d == 1 {
        '1'
    } else if d == 2 {
        '2'
    } else if d == 3 {
        '3'
    } else if d == 4 {
        '4'
    } else if d == 5 {
        '5'
    } else if d == 6 {
        '6'
    } else if d == 7 {
        '7'
    } else if d == 8 {
        '8'
    } else {
        '9'
    }
}

/// The decimal spelling of a natural number, most significant digit first.
pub open spec fn dec_of(n: nat) -> Seq<char>
    decreases n,
{
    if n < 10 {
        seq![dec_digit(n)]
    } else {
        dec_of(n / 10) + seq![dec_digit(n % 10)]
    }
}

/// A decimal spelling is never empty, holds only digits, and reading it back
/// yields the number it was made from.
pub proof fn lemma_dec_of_val(n: nat)
    ensures
        dec_of(n).len() >= 1,
        all_digits(dec_of(n)),
        dec_val(dec_of(n)) == n,
    decreases n,
{
    if n < 10 {
        assert(digit_val(dec_digit(n)) == n);
        assert(dec_of(n).drop_last() =~= Seq::<char>::empty());
        assert(dec_val(Seq::<char>::empty()) == 0);
        assert(dec_of(n).last() == dec_digit(n));
        assert(dec_val(dec_of(n)) == dec_val(dec_of(n).drop_last()) * 10 + digit_val(
            dec_of(n).last(),
        ));
    } else {
        lemma_dec_of_val(n / 10);
        let s = dec_of(n);
        assert(s.drop_last() =~= dec_of(n / 10));
        assert(s.last() == dec_digit(n % 10));
        assert(digit_val(dec_digit(n % 10)) == n % 10);
        assert forall|j: int| 0 <= j < s.len() implies is_dec_digit(#[trigger] s[j]) by {
            if j < s.len() - 1 {
                assert(s[j] == dec_of(n / 10)[j]);
            }
        }
        assert(dec_val(s) == dec_val(dec_of(n / 10)) * 10 + digit_val(dec_digit(n % 10)));
        assert((n / 10) * 10 + n % 10 == n);
    }
}

/// Two different numbers never share a decimal spelling.
pub proof fn lemma_dec_of_injective(a: nat, b: nat)
    requires
        dec_of(a) == dec_of(b),
    ensures
        a == b,
{
    lemma_dec_of_val(a);
    lemma_dec_of_val(b);
}

/// The id that the store's entries, read newest first, give a token.
spec fn seq_lookup(es: Seq<(u64, String, i32)>, t: Seq<char>) -> Option<i32>
    decreases es.len(),
{
    if es.len() == 0 {
        None
    } else if es.last().1@ == t {
        Some(es.last().2)
    } else {
        seq_lookup(es.drop_last(), t)
    }
}

/// A token that no entry carries resolves to nothing.
proof fn lemma_seq_lookup_none(es: Seq<(u64, String, i32)>, t: Seq<char>)
    requires
        forall|j: int| 0 <= j < es.len() ==> (#[trigger] es[j]).1@ != t,
    ensures
        seq_lookup(es, t) is None,
    decreases es.len(),
{
    if es.len() > 0 {
        lemma_seq_lookup_none(es.drop_last(), t);
    }
}

/// Removing an entry whose token is not `t` leaves what `t` resolves to
/// unchanged.
proof fn lemma_seq_lookup_remove(es: Seq<(u64, String, i32)>, j: int, t: Seq<char>)
    requires
        0 <= j < es.len(),
        es[j].1@ != t,
    ensures
        seq_lookup(es.remove(j), t) == seq_lookup(es, t),
    decreases es.len(),
{
    if j == es.len() - 1 {
        assert(es.remove(j) =~= es.drop_last());
    } else {
        lemma_seq_lookup_remove(es.drop_last(), j, t);
        assert(es.remove(j).drop_last() =~= es.drop_last().remove(j));
        assert(es.remove(j).last() == es.last());
    }
}

/// The spelling of one decimal digit as a string slice.
fn digit_str(d: u8) -> (r: &'static str)
    requires
        d < 10,
    ensures
        r@ == seq![dec_digit(d as nat)],
{
    proof {
        reveal_strlit("0");
        reveal_strlit("1");
        reveal_strlit("2");
        reveal_strlit("3");
        reveal_strlit("4");
        reveal_strlit("5");
        reveal_strlit("6");
        reveal_strlit("7");
        reveal_strlit("8");
        reveal_strlit("9");
    }
    let r = match d {
        0 => "0",
        1 => "1",
        2 => "2",
        3 => "3",
        4 => "4",
        5 => "5",
        6 => "6",
        7 => "7",
        8 => "8",
        _ => "9",
    };
    proof {
        assert(r@ =~= seq![dec_digit(d as nat)]);
    }
    r
}

/// The decimal spelling of a number, as a string.
fn u64_to_dec_string(n: u64) -> (r: String)
    ensures
        r@ == dec_of(n as nat),
    decreases n,
{
    if n < 10 {
        digit_str(n as u8).to_owned()
    } else {
        let mut s = u64_to_dec_string(n / 10);
        s.append(digit_str((n % 10) as u8));
        s
    }
}

/// Maps opaque session tokens to player ids. A token exists from the login
/// that minted it until it is revoked, and no two live tokens are equal.
pub struct SessionTokenStore {
    next_serial: u64,
    entries: Vec<(u64, String, i32)>,
}

impl SessionTokenStore {
    /// Every entry's token is the decimal spelling of its serial, serials
    /// are unique, and all sit below the next serial to be minted.
    pub closed spec fn wf(&self) -> bool {
        &&& forall|j: int|
            0 <= j < self.entries@.len() ==> (#[trigger] self.entries@[j]).1@ == dec_of(
                self.entries@[j].0 as nat,
            )
        &&& forall|j: int|
            0 <= j < self.entries@.len() ==> (#[trigger] self.entries@[j]).0 < self.next_serial
        &&& forall|j: int, k: int|
            0 <= j < self.entries@.len() && 0 <= k < self.entries@.len() && (
            #[trigger] self.entries@[j]).0 == (#[trigger] self.entries@[k]).0 ==> j == k
    }

    /// The player id a token currently stands for, if any.
    pub closed spec fn spec_lookup(&self, t: Seq<char>) -> Option<i32> {
        seq_lookup(self.entries@, t)
    }

    /// Whether another token can still be minted.
    pub closed spec fn can_issue_spec(&self) -> bool {
        self.next_serial < u64::MAX
    }

    /// Creates an empty store.
    pub fn new() -> (s: SessionTokenStore)
        ensures
            s.wf(),
            s.can_issue_spec(),
            forall|t: Seq<char>| s.spec_lookup(t) is None,
    {
        SessionTokenStore { next_serial: 0, entries: Vec::new() }
    }

    /// Whether another token can still be minted.
    pub fn can_issue(&self) -> (r: bool)
        ensures
            r == self.can_issue_spec(),
    {
        self.next_serial < u64::MAX
    }

    /// Mints a fresh token and associates it with the given player id. The
    /// token differs from every token the store has ever handed out.
    pub fn issue(&mut self, player_id: i32) -> (tok: String)
        requires
            old(self).wf(),
            old(self).can_issue_spec(),
        ensures
            final(self).wf(),
            tok@.len() >= 1,
            old(self).spec_lookup(tok@) is None,
            final(self).spec_lookup(tok@) == Some(player_id),
            forall|t: Seq<char>|
                t != tok@ ==> final(self).spec_lookup(t) == old(self).spec_lookup(t),
    {
        let serial = self.next_serial;
        let tok = u64_to_dec_string(serial);
        proof {
            lemma_dec_of_val(serial as nat);
            assert forall|j: int| 0 <= j < self.entries@.len() implies (
            #[trigger] self.entries@[j]).1@ != tok@ by {
                if self.entries@[j].1@ == tok@ {
                    lemma_dec_of_injective(self.entries@[j].0 as nat, serial as nat);
                }
            }
            lemma_seq_lookup_none(self.entries@, tok@);
        }
        let entry = (serial, tok.clone(), player_id);
        self.entries.push(entry);
        self.next_serial = self.next_serial + 1;
        proof {
            assert(self.entries@.drop_last() =~= old(self).entries@);
            assert forall|t: Seq<char>| t != tok@ implies final(self).spec_lookup(t) == old(
                self,
            ).spec_lookup(t) by {
                assert(seq_lookup(self.entries@, t) == seq_lookup(old(self).entries@, t));
            }
        }
        tok
    }

    /// The player id behind a token, or nothing for a token the store does
    /// not know.
    pub fn resolve(&self, token: &String) -> (r: Option<i32>)
        ensures
            r == self.spec_lookup(token@),
    {
        let mut i: usize = self.entries.len();
        proof {
            assert(self.entries@.take(i as int) =~= self.entries@);
        }
        while i > 0
            invariant
                i <= self.entries@.len(),
                seq_lookup(self.entries@, token@) == seq_lookup(
                    self.entries@.take(i as int),
                    token@,
                ),
            decreases i,
        {
            i = i - 1;
            proof {
                assert(self.entries@.take(i + 1).last() == self.entries@[i as int]);
                assert(self.entries@.take(i + 1).drop_last() =~= self.entries@.take(i as int));
            }
            if self.entries[i].1.eq(token) {
                return Some(self.entries[i].2);
            }
        }
        proof {
            assert(self.entries@.take(0) =~= Seq::<(u64, String, i32)>::empty());
        }
        None
    }

    /// Removes a token's mapping. Revoking a token the store does not know
    /// changes nothing; either way the token resolves to nothing afterwards.
    pub fn revoke(&mut self, token: &String)
        requires
            old(self).wf(),
        ensures
            final(self).wf(),
            final(self).can_issue_spec() == old(self).can_issue_spec(),
            final(self).spec_lookup(token@) is None,
            forall|t: Seq<char>|
                t != token@ ==> final(self).spec_lookup(t) == old(self).spec_lookup(t),
    {
        let mut i: usize = 0;
        while i < self.entries.len()
            invariant
                *self == *old(self),
                old(self).wf(),
                i <= self.entries@.len(),
                forall|j: int| 0 <= j < i ==> (#[trigger] self.entries@[j]).1@ != token@,
            decreases self.entries@.len() - i,
        {
            if self.entries[i].1.eq(token) {
                let ghost pre = self.entries@;
                self.entries.remove(i);
                proof {
                    pre.remove_ensures(i as int);
                    assert forall|j: int, k: int|
                        0 <= j < self.entries@.len() && 0 <= k < self.entries@.len() && (
                        #[trigger] self.entries@[j]).0 == (#[trigger] self.entries@[k]).0 implies j
                        == k by {
                        let m = if j < i as int { j } else { j + 1 };
                        let n = if k < i as int { k } else { k + 1 };
                        assert(pre[m] == self.entries@[j]);
                        assert(pre[n] == self.entries@[k]);
                    }
                    assert forall|j: int| 0 <= j < self.entries@.len() implies (
                    #[trigger] self.entries@[j]).1@ != token@ by {
                        let m = if j < i as int { j } else { j + 1 };
                        assert(pre[m] == self.entries@[j]);
                        if m != i as int && pre[m].1@ == token@ {
                            lemma_dec_of_injective(pre[m].0 as nat, pre[i as int].0 as nat);
                        }
                    }
                    lemma_seq_lookup_none(self.entries@, token@);
                    assert forall|t: Seq<char>| t != token@ implies final(self).spec_lookup(t)
                        == old(self).spec_lookup(t) by {
                        lemma_seq_lookup_remove(pre, i as int, t);
                    }
                }
                return ;
            }
            i = i + 1;
        }
        proof {
            lemma_seq_lookup_none(self.entries@, token@);
        }
    }
}

} // verus!
