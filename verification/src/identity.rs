use vstd::prelude::*;

use crate::address::{is_id_char, valid_id};

verus! {

// Identity and link derivation.  In the deployed system the public
// identity comes out of the seed through a key-derivation primitive,
// and the channel address out of the identity through a hash; both are
// external collaborators of this core, which needs of them only that
// they are deterministic and keep to the identifier grammar.  The
// stand-ins here have exactly those properties, stated and proved, so
// that everything built on them — address chaining, announcement
// verification, keyload membership — is verified against the contract
// the real primitives are trusted for.

/// The public identity the seed derives: deterministic and grammatical.
pub open spec fn spec_identity(seed: Seq<char>) -> Seq<char> {
    seed.reverse()
}

/// Derives the role's public identity from its seed.
pub fn derive_identity(seed: &str) -> (r: String)
    ensures
        r@ == spec_identity(seed@),
{
    let len = seed.unicode_len();
    let mut out = String::new();
    let mut i: usize = 0;
    while i < len
        invariant
            len == seed@.len(),
            i <= len,
            out@.len() == i,
            forall|j: int| 0 <= j < i ==> out@[j] == seed@[len - 1 - j],
        decreases len - i,
    {
        let piece = seed.substring_char(len - 1 - i, len - i);
        out.append(piece);
        i += 1;
    }
    proof {
        assert(out@ =~= spec_identity(seed@));
    }
    out
}

/// A derived identity keeps to the identifier grammar.
pub proof fn lemma_identity_valid(seed: Seq<char>)
    requires
        valid_id(seed),
    ensures
        valid_id(spec_identity(seed)),
{
    assert(forall|i: int|
        0 <= i < seed.len() ==> spec_identity(seed)[i] == seed[seed.len() - 1 - i]);
}

/// The message-id digit standing for one decimal digit of the counter.
pub open spec fn spec_digit(d: int) -> char
    recommends
        0 <= d < 10,
{
    if d == 0 {
        'A'
    } else if d == 1 {
        'B'
    } else if d == 2 {
        'C'
    } else if d == 3 {
        'D'
    } else if d == 4 {
        'E'
    } else if d == 5 {
        'F'
    } else if d == 6 {
        'G'
    } else if d == 7 {
        'H'
    } else if d == 8 {
        'I'
    } else {
        'J'
    }
}

fn digit_str(d: u64) -> (r: &'static str)
    requires
        d < 10,
    ensures
        r@ == seq![spec_digit(d as int)],
{
    if d == 0 {
        proof {
            reveal_strlit("A");
            assert("A"@ =~= seq![spec_digit(0)]);
        }
        "A"
    } else if d == 1 {
        proof {
            reveal_strlit("B");
            assert("B"@ =~= seq![spec_digit(1)]);
        }
        "B"
    } else if d == 2 {
        proof {
            reveal_strlit("C");
            assert("C"@ =~= seq![spec_digit(2)]);
        }
        "C"
    } else if d == 3 {
        proof {
            reveal_strlit("D");
            assert("D"@ =~= seq![spec_digit(3)]);
        }
        "D"
    } else if d == 4 {
        proof {
            reveal_strlit("E");
            assert("E"@ =~= seq![spec_digit(4)]);
        }
        "E"
    } else if d == 5 {
        proof {
            reveal_strlit("F");
            assert("F"@ =~= seq![spec_digit(5)]);
        }
        "F"
    } else if d == 6 {
        proof {
            reveal_strlit("G");
            assert("G"@ =~= seq![spec_digit(6)]);
        }
        "G"
    } else if d == 7 {
        proof {
            reveal_strlit("H");
            assert("H"@ =~= seq![spec_digit(7)]);
        }
        "H"
    } else if d == 8 {
        proof {
            reveal_strlit("I");
            assert("I"@ =~= seq![spec_digit(8)]);
        }
        "I"
    } else {
        proof {
            reveal_strlit("J");
            assert("J"@ =~= seq![spec_digit(9)]);
        }
        "J"
    }
}

/// The message id the sequence counter derives: the counter's decimal
/// digits, written in the identifier alphabet.
pub open spec fn spec_msgid(n: int) -> Seq<char>
    recommends
        n >= 0,
    decreases n,
{
    if n < 10 {
        seq![spec_digit(n)]
    } else {
        spec_msgid(n / 10).push(spec_digit(n % 10))
    }
}

/// Derives the next message id from the role's sequence counter.
pub fn msgid_of(n: u64) -> (r: String)
    ensures
        r@ == spec_msgid(n as int),
    decreases n,
{
    if n < 10 {
        digit_str(n).to_owned()
    } else {
        let mut s = msgid_of(n / 10);
        s.append(digit_str(n % 10));
        proof {
            assert(s@ =~= spec_msgid(n as int));
        }
        s
    }
}

/// A derived message id keeps to the identifier grammar.
pub proof fn lemma_msgid_valid(n: int)
    requires
        n >= 0,
    ensures
        valid_id(spec_msgid(n)),
    decreases n,
{
    assert(is_id_char(spec_digit(n % 10)));
    if n < 10 {
    } else {
        lemma_msgid_valid(n / 10);
    }
}

/// The group session key a keyload distributes: fresh per keyload,
/// derived from the author's identity and the keyload's counter.  The
/// key-agreement mathematics behind the real key is external; the core
/// needs only determinism and freshness per counter value.
pub open spec fn spec_session(identity: Seq<char>, n: int) -> Seq<char> {
    identity + spec_msgid(n)
}

/// Derives the session key for the keyload at counter `n`.
pub fn session_of(identity: &String, n: u64) -> (r: String)
    ensures
        r@ == spec_session(identity@, n as int),
{
    let mut s = identity.clone();
    let m = msgid_of(n);
    s.append(m.as_str());
    s
}

} // verus!
