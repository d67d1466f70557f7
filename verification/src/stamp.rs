//! Naming of mirror remotes: `mirror-<unix-timestamp-seconds>`.
//!
//! The timestamp suffix is what keeps repeated `mirror` invocations from
//! colliding: two invocations in different seconds always produce different
//! remote names, and two in the same second always produce the same name, so
//! the second remote-add fails — an accepted limitation of the scheme.

use vstd::prelude::*;
use vstd::string::StringExecFns;

use crate::text::{contains_at, contains_seq};

verus! {

/// The character for a single decimal digit.
pub open spec fn digit_char(d: nat) -> char {
    if d == 0 {
        '0'
    } else if d == 1 {
        '1'
    } else if d == 2 {
        '2'
    } else if d == 3 {
        '3'
    } else if d == 4 {
        '4'
    } else if d == 5 {
        '5'
    } else if d == 6 {
        '6'
    } else if d == 7 {
        '7'
    } else if d == 8 {
        '8'
    } else {
        '9'
    }
}

/// The decimal representation of `n`, most significant digit first, with no
/// leading zeros (a lone zero for `n == 0`).
pub open spec fn dec_rep(n: nat) -> Seq<char>
    decreases n,
{
    if n < 10 {
        seq![digit_char(n)]
    } else {
        dec_rep(n / 10).push(digit_char(n % 10))
    }
}

/// The name given to the mirror remote created at second `ts`.
pub open spec fn mirror_name(ts: nat) -> Seq<char> {
    "mirror-"@ + dec_rep(ts)
}

/// The one-character string for a decimal digit.
fn digit_str(d: u64) -> (r: &'static str)
    requires
        d < 10,
    ensures
        r@ == seq![digit_char(d as nat)],
{
    if d == 0 {
        proof {
            reveal_strlit("0");
        }
        assert("0"@ =~= seq![digit_char(0)]);
        "0"
    } else if d == 1 {
        proof {
            reveal_strlit("1");
        }
        assert("1"@ =~= seq![digit_char(1)]);
        "1"
    } else if d == 2 {
        proof {
            reveal_strlit("2");
        }
        assert("2"@ =~= seq![digit_char(2)]);
        "2"
    } else if d == 3 {
        proof {
            reveal_strlit("3");
        }
        assert("3"@ =~= seq![digit_char(3)]);
        "3"
    } else if d == 4 {
        proof {
            reveal_strlit("4");
        }
        assert("4"@ =~= seq![digit_char(4)]);
        "4"
    } else if d == 5 {
        proof {
            reveal_strlit("5");
        }
        assert("5"@ =~= seq![digit_char(5)]);
        "5"
    } else if d == 6 {
        proof {
            reveal_strlit("6");
        }
        assert("6"@ =~= seq![digit_char(6)]);
        "6"
    } else if d == 7 {
        proof {
            reveal_strlit("7");
        }
        assert("7"@ =~= seq![digit_char(7)]);
        "7"
    } else if d == 8 {
        proof {
            reveal_strlit("8");
        }
        assert("8"@ =~= seq![digit_char(8)]);
        "8"
    } else {
        proof {
            reveal_strlit("9");
        }
        assert("9"@ =~= seq![digit_char(9)]);
        "9"
    }
}

/// The decimal representation of `n` as a string.
pub fn u64_to_dec(n: u64) -> (r: String)
    ensures
        r@ == dec_rep(n as nat),
    decreases n,
{
    if n < 10 {
        digit_str(n).to_owned()
    } else {
        let mut r = u64_to_dec(n / 10);
        r.append(digit_str(n % 10));
        assert(r@ =~= dec_rep(n as nat));
        r
    }
}

/// The remote name used for a mirror registered at second `ts`.
pub fn mirror_remote_name(ts: u64) -> (r: String)
    ensures
        r@ == mirror_name(ts as nat),
{
    let mut r = String::from_str("mirror-");
    r.append(u64_to_dec(ts).as_str());
    r
}

/// The decimal representation is never empty.
pub proof fn lemma_dec_rep_len(n: nat)
    ensures
        dec_rep(n).len() >= 1,
    decreases n,
{
    if n >= 10 {
        lemma_dec_rep_len(n / 10);
    }
}

/// Distinct digits get distinct characters.
proof fn lemma_digit_char_injective(a: nat, b: nat)
    requires
        a < 10,
        b < 10,
        digit_char(a) == digit_char(b),
    ensures
        a == b,
{
}

/// Two numbers with the same decimal representation are the same number.
pub proof fn lemma_dec_rep_injective(a: nat, b: nat)
    requires
        dec_rep(a) == dec_rep(b),
    ensures
        a == b,
    decreases a + b,
{
    lemma_dec_rep_len(a / 10);
    lemma_dec_rep_len(b / 10);
    if a < 10 && b < 10 {
        assert(dec_rep(a)[0] == digit_char(a));
        assert(dec_rep(b)[0] == digit_char(b));
        lemma_digit_char_injective(a, b);
    } else if a < 10 {
        assert(dec_rep(a).len() == 1);
        assert(dec_rep(b).len() == dec_rep(b / 10).len() + 1);
    } else if b < 10 {
        assert(dec_rep(b).len() == 1);
        assert(dec_rep(a).len() == dec_rep(a / 10).len() + 1);
    } else {
        assert(dec_rep(a) == dec_rep(a / 10).push(digit_char(a % 10)));
        assert(dec_rep(b) == dec_rep(b / 10).push(digit_char(b % 10)));
        assert(dec_rep(a).len() == dec_rep(b).len());
        assert(dec_rep(a).last() == digit_char(a % 10));
        assert(dec_rep(b).last() == digit_char(b % 10));
        lemma_digit_char_injective(a % 10, b % 10);
        assert(dec_rep(a).drop_last() =~= dec_rep(a / 10));
        assert(dec_rep(b).drop_last() =~= dec_rep(b / 10));
        lemma_dec_rep_injective(a / 10, b / 10);
    }
}

/// Whatever the timestamp, the name `mirror` picks carries the token
/// `mirror` that a push run's remote selection looks for.
pub proof fn lemma_mirror_name_bears_mirror(ts: nat)
    ensures
        contains_seq(mirror_name(ts), "mirror"@),
{
    reveal_strlit("mirror-");
    reveal_strlit("mirror");
    lemma_dec_rep_len(ts);
    assert(mirror_name(ts).len() >= 8);
    assert(mirror_name(ts).subrange(0, 6) =~= "mirror"@) by {
        assert forall|k: int| 0 <= k < 6 implies mirror_name(ts).subrange(0, 6)[k]
            == "mirror"@[k] by {
            assert(mirror_name(ts)[k] == "mirror-"@[k]);
        }
    }
    assert(contains_at(mirror_name(ts), "mirror"@, 0));
}

/// Mirror-remote names collide exactly when the timestamps coincide: two
/// `mirror` runs in the same wall-clock second pick the same remote name
/// (so the second remote-add must fail), and runs at least a second apart
/// always pick distinct names.
pub proof fn lemma_mirror_names_collide_iff_same_second(a: nat, b: nat)
    ensures
        (mirror_name(a) == mirror_name(b)) <==> a == b,
{
    if mirror_name(a) == mirror_name(b) {
        let p = "mirror-"@;
        assert(mirror_name(a).len() == p.len() + dec_rep(a).len());
        assert(mirror_name(b).len() == p.len() + dec_rep(b).len());
        assert(dec_rep(a).len() == dec_rep(b).len());
        assert(dec_rep(a) =~= dec_rep(b)) by {
            assert forall|i: int| 0 <= i < dec_rep(a).len() implies dec_rep(a)[i] == dec_rep(b)[
                i
            ] by {
                assert(mirror_name(a)[p.len() + i] == dec_rep(a)[i]);
                assert(mirror_name(b)[p.len() + i] == dec_rep(b)[i]);
            }
        }
        lemma_dec_rep_injective(a, b);
    }
}

} // verus!
