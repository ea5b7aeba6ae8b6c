//! SSH routing helpers: deriving a destination host from the SSH username.
//!
//! SSH has no SNI; the destination can be smuggled in the username, either
//! as `user@host` or as a bare hostname (routed with the default user
//! `root`).

use vstd::prelude::*;

verus! {

/// Index of the first `@` in `u` at or after `pos`, or the length.
pub open spec fn spec_find_at(u: Seq<char>, pos: int) -> int
    decreases u.len() - pos
        when 0 <= pos <= u.len()
{
    if pos >= u.len() {
        pos
    } else if u[pos] == '@' {
        pos
    } else {
        spec_find_at(u, pos + 1)
    }
}

pub proof fn lemma_find_at(u: Seq<char>, pos: int)
    requires
        0 <= pos <= u.len(),
    ensures
        pos <= spec_find_at(u, pos) <= u.len(),
        spec_find_at(u, pos) < u.len() ==> u[spec_find_at(u, pos)] == '@',
        forall|j: int| pos <= j < spec_find_at(u, pos) ==> u[j] != '@',
    decreases u.len() - pos,
{
    if pos < u.len() && u[pos] != '@' {
        lemma_find_at(u, pos + 1);
    }
}

/// The characters treated as whitespace when validating a bare hostname.
pub open spec fn spec_ssh_space(c: char) -> bool {
    c == ' ' || c == '\t' || c == '\n' || c == '\r'
}

/// What `extract_ssh_destination` yields: `(host, user)` from `user@host`
/// when both parts are non-empty; a bare, whitespace-free, `@`-free
/// username as the host with user `root`; empty strings otherwise.
pub open spec fn spec_ssh_destination(u: Seq<char>) -> (Seq<char>, Seq<char>) {
    let ap = spec_find_at(u, 0);
    if ap < u.len() && 0 < ap && ap + 1 < u.len() {
        (u.skip(ap + 1), u.take(ap))
    } else if u.len() > 0 && (forall|j: int| 0 <= j < u.len() ==> !spec_ssh_space(#[trigger] u[j]))
        && ap >= u.len() {
        (u, seq!['r', 'o', 'o', 't'])
    } else {
        (Seq::empty(), Seq::empty())
    }
}

/// Splits an SSH username into `(host, user)` as [`spec_ssh_destination`]
/// describes.
pub fn extract_ssh_destination(username: &str) -> (r: (&str, &str))
    ensures
        r.0@ == spec_ssh_destination(username@).0,
        r.1@ == spec_ssh_destination(username@).1,
{
    proof {
        lemma_find_at(username@, 0);
        reveal_strlit("root");
        reveal_strlit("");
        assert("root"@ =~= seq!['r', 'o', 'o', 't']);
        assert(""@ =~= Seq::<char>::empty());
    }
    let ulen = username.unicode_len();
    let mut i: usize = 0;
    let mut at_pos = ulen;
    let mut found = false;
    while i < ulen
        invariant
            0 <= i <= ulen,
            ulen == username@.len(),
            !found ==> at_pos == ulen && (forall|j: int| 0 <= j < i ==> username@[j] != '@'),
            found ==> at_pos < ulen && username@[at_pos as int] == '@' && (forall|j: int|
                0 <= j < at_pos ==> username@[j] != '@') && at_pos < i,
        decreases ulen - i,
    {
        if !found && username.get_char(i) == '@' {
            at_pos = i;
            found = true;
        }
        i += 1;
    }
    proof {
        assert(at_pos as int == spec_find_at(username@, 0)) by {
            let le = spec_find_at(username@, 0);
            if found {
                if le < at_pos as int {
                    assert(username@[le] == '@');
                } else if le > at_pos as int {
                    assert(username@[at_pos as int] != '@');
                }
            } else {
                if le < ulen as int {
                    assert(username@[le] == '@');
                }
            }
        }
    }
    if found && at_pos > 0 && at_pos + 1 < ulen {
        let user = username.substring_char(0, at_pos);
        let host = username.substring_char(at_pos + 1, ulen);
        return (host, user);
    }
    if !found && ulen > 0 {
        // a bare name routes to itself with the default user, provided it
        // holds no whitespace
        let mut k: usize = 0;
        let mut clean = true;
        while k < ulen
            invariant
                0 <= k <= ulen,
                ulen == username@.len(),
                clean == (forall|j: int| 0 <= j < k ==> !spec_ssh_space(#[trigger] username@[j])),
            decreases ulen - k,
        {
            let c = username.get_char(k);
            if c == ' ' || c == '\t' || c == '\n' || c == '\r' {
                clean = false;
            }
            k += 1;
        }
        if clean {
            return (username, "root");
        }
    }
    ("", "")
}

} // verus!
