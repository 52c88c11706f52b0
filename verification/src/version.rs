//! Version comparison: orders two version strings so that a change can be
//! classified as an upgrade or a downgrade.
//!
//! A version string is split on the delimiters `.`, `-` and `_`; every token
//! that is not a plain run of digits with a value that fits in a `u32` is
//! dropped (alphabetic qualifiers such as a release-candidate marker carry no
//! weight — a documented simplification, not an error). The surviving numeric
//! components are compared in order; the first differing pair decides, and at
//! an equal common prefix the sequence with more components is the newer one.
//! The comparison never fails: a string with no numeric token compares as the
//! empty sequence.

use vstd::prelude::*;

verus! {

/// A character on which a version string is split into tokens.
pub open spec fn spec_is_delim(c: char) -> bool {
    c == '.' || c == '-' || c == '_'
}

/// An ASCII decimal digit.
pub open spec fn spec_is_digit(c: char) -> bool {
    48 <= c as u32 && c as u32 <= 57
}

/// The value of one ASCII decimal digit.
pub open spec fn digit_val(c: char) -> nat {
    (c as u32 - 48) as nat
}

/// The numeric value of a run of digits, most significant digit first.
pub open spec fn token_val(t: Seq<char>) -> nat
    decreases t.len(),
{
    if t.len() == 0 {
        0
    } else {
        token_val(t.drop_last()) * 10 + digit_val(t.last())
    }
}

/// A token counts toward the comparison iff it is a nonempty run of digits
/// whose value fits in a `u32`; every other token is dropped.
pub open spec fn spec_is_numeric_token(t: Seq<char>) -> bool {
    &&& t.len() > 0
    &&& forall|i: int| 0 <= i < t.len() ==> spec_is_digit(#[trigger] t[i])
    &&& token_val(t) <= u32::MAX
}

/// The numeric components contributed by the rest of the string `s` when the
/// token read so far holds the characters `cur`: a delimiter (or the end of
/// the string) closes the current token, which contributes its value iff it
/// is numeric.
pub open spec fn numeric_parts_from(s: Seq<char>, cur: Seq<char>) -> Seq<nat>
    decreases s.len(),
{
    if s.len() == 0 {
        if spec_is_numeric_token(cur) {
            seq![token_val(cur)]
        } else {
            seq![]
        }
    } else if spec_is_delim(s[0]) {
        (if spec_is_numeric_token(cur) {
            seq![token_val(cur)]
        } else {
            seq![]
        }) + numeric_parts_from(s.drop_first(), seq![])
    } else {
        numeric_parts_from(s.drop_first(), cur.push(s[0]))
    }
}

/// The numeric components of a whole version string, in order.
pub open spec fn numeric_parts(s: Seq<char>) -> Seq<nat> {
    numeric_parts_from(s, seq![])
}

/// Component-wise order on numeric component sequences: the first differing
/// pair decides; at an equal common prefix the longer sequence is newer.
pub open spec fn parts_newer(a: Seq<nat>, b: Seq<nat>) -> bool
    decreases a.len(),
{
    if a.len() == 0 {
        false
    } else if b.len() == 0 {
        true
    } else if a[0] > b[0] {
        true
    } else if a[0] < b[0] {
        false
    } else {
        parts_newer(a.drop_first(), b.drop_first())
    }
}

/// What it means for `candidate` to be a newer version than `baseline`.
pub open spec fn spec_is_upgrade(candidate: Seq<char>, baseline: Seq<char>) -> bool {
    parts_newer(numeric_parts(candidate), numeric_parts(baseline))
}

proof fn lemma_parts_newer_asymmetric(x: Seq<nat>, y: Seq<nat>)
    ensures
        !(parts_newer(x, y) && parts_newer(y, x)),
    decreases x.len(),
{
    if x.len() > 0 && y.len() > 0 && x[0] == y[0] {
        lemma_parts_newer_asymmetric(x.drop_first(), y.drop_first());
    }
}

/// Law: the version order is consistent: two versions are never each newer
/// than the other, and no version is newer than itself.
pub proof fn lemma_version_order_asymmetric(a: Seq<char>, b: Seq<char>)
    ensures
        !(spec_is_upgrade(a, b) && spec_is_upgrade(b, a)),
        !spec_is_upgrade(a, a),
{
    lemma_parts_newer_asymmetric(numeric_parts(a), numeric_parts(b));
    lemma_parts_newer_asymmetric(numeric_parts(a), numeric_parts(a));
}

/// The same sequence of `u32` components, seen as mathematical integers.
pub open spec fn to_nat_seq(s: Seq<u32>) -> Seq<nat> {
    s.map_values(|x: u32| x as nat)
}

/// Splits `v` on the delimiters, drops the non-numeric tokens and returns the
/// values of the numeric ones, in order.
fn numeric_components(v: &str) -> (r: Vec<u32>)
    ensures
        to_nat_seq(r@) == numeric_parts(v@),
{
    let n: usize = v.unicode_len();
    let mut parts: Vec<u32> = Vec::new();
    let mut i: usize = 0;
    // State of the token currently being read.
    let mut started: bool = false;
    let mut numeric: bool = true;
    let mut value: u32 = 0;
    let ghost mut cur: Seq<char> = seq![];
    proof {
        assert(v@.skip(0) =~= v@);
        assert(to_nat_seq(parts@) + numeric_parts_from(v@, cur) =~= numeric_parts(v@));
    }
    while i < n
        invariant
            n == v@.len(),
            i <= n,
            started == (cur.len() > 0),
            numeric == ((forall|k: int| 0 <= k < cur.len() ==> spec_is_digit(#[trigger] cur[k]))
                && token_val(cur) <= u32::MAX),
            numeric ==> value as nat == token_val(cur),
            numeric_parts(v@) == to_nat_seq(parts@) + numeric_parts_from(v@.skip(i as int), cur),
        decreases n - i,
    {
        let c = v.get_char(i);
        proof {
            assert(v@.skip(i as int)[0] == v@[i as int]);
            assert(v@.skip(i as int).drop_first() =~= v@.skip(i as int + 1));
        }
        if c == '.' || c == '-' || c == '_' {
            if started && numeric {
                parts.push(value);
                proof {
                    assert(to_nat_seq(parts@) =~= to_nat_seq(parts@.drop_last()).push(
                        token_val(cur)));
                    assert(to_nat_seq(parts@.drop_last()) + numeric_parts_from(
                        v@.skip(i as int), cur) =~= to_nat_seq(parts@) + numeric_parts_from(
                        v@.skip(i as int + 1), seq![]));
                }
            } else {
                proof {
                    assert(to_nat_seq(parts@) + numeric_parts_from(v@.skip(i as int), cur)
                        =~= to_nat_seq(parts@) + numeric_parts_from(v@.skip(i as int + 1), seq![]));
                }
            }
            started = false;
            numeric = true;
            value = 0;
            proof {
                cur = seq![];
            }
        } else {
            let ghost old_cur = cur;
            let ghost old_numeric = numeric;
            proof {
                cur = cur.push(c);
                assert(cur.drop_last() =~= old_cur);
                assert(cur.last() == c);
                assert(forall|k: int| 0 <= k < old_cur.len() ==> cur[k] == old_cur[k]);
            }
            let u: u32 = c as u32;
            if numeric && 48 <= u && u <= 57 {
                let wide: u64 = (value as u64) * 10 + ((u - 48) as u64);
                if wide <= u32::MAX as u64 {
                    value = wide as u32;
                    proof {
                        assert(value as nat == token_val(cur));
                    }
                } else {
                    numeric = false;
                    proof {
                        // The token value has outgrown `u32` and only grows
                        // from here on.
                        assert(token_val(cur) > u32::MAX);
                    }
                }
            } else {
                if numeric {
                    // The new character is not a digit.
                    proof {
                        assert(!spec_is_digit(cur[cur.len() - 1]));
                    }
                } else {
                    // The token was already ruled out: either some earlier
                    // character is not a digit, or the value is already too
                    // large and another digit keeps it too large.
                    proof {
                        if forall|k: int| 0 <= k < old_cur.len() ==> spec_is_digit(
                            #[trigger] old_cur[k]) {
                            assert(token_val(old_cur) > u32::MAX);
                            assert(token_val(cur) == token_val(old_cur) * 10 + digit_val(c));
                            assert(token_val(old_cur) * 10 >= token_val(old_cur));
                        }
                    }
                }
                numeric = false;
            }
            started = true;
        }
        i = i + 1;
    }
    proof {
        assert(v@.skip(n as int) =~= Seq::<char>::empty());
    }
    if started && numeric {
        parts.push(value);
        proof {
            assert(to_nat_seq(parts@) =~= to_nat_seq(parts@.drop_last()).push(token_val(cur)));
            assert(to_nat_seq(parts@.drop_last()) + numeric_parts_from(Seq::<char>::empty(), cur)
                =~= to_nat_seq(parts@));
        }
    } else {
        proof {
            assert(to_nat_seq(parts@) + numeric_parts_from(Seq::<char>::empty(), cur)
                =~= to_nat_seq(parts@));
        }
    }
    parts
}

/// Orders two version strings: true iff `candidate` is to be treated as newer
/// than `baseline`. Never fails; a string with no numeric token compares as
/// the empty component sequence.
pub fn version_compare(candidate: &str, baseline: &str) -> (r: bool)
    ensures
        r == spec_is_upgrade(candidate@, baseline@),
{
    let a = numeric_components(candidate);
    let b = numeric_components(baseline);
    let na: usize = a.len();
    let nb: usize = b.len();
    let min: usize = if na < nb {
        na
    } else {
        nb
    };
    let mut j: usize = 0;
    proof {
        assert(to_nat_seq(a@).skip(0) =~= to_nat_seq(a@));
        assert(to_nat_seq(b@).skip(0) =~= to_nat_seq(b@));
    }
    while j < min
        invariant
            j <= min,
            min <= na == a@.len(),
            min <= nb == b@.len(),
            min == na || min == nb,
            to_nat_seq(a@) == numeric_parts(candidate@),
            to_nat_seq(b@) == numeric_parts(baseline@),
            spec_is_upgrade(candidate@, baseline@) == parts_newer(
                to_nat_seq(a@).skip(j as int), to_nat_seq(b@).skip(j as int)),
        decreases min - j,
    {
        proof {
            assert(to_nat_seq(a@).skip(j as int)[0] == a@[j as int] as nat);
            assert(to_nat_seq(b@).skip(j as int)[0] == b@[j as int] as nat);
            assert(to_nat_seq(a@).skip(j as int).drop_first() =~= to_nat_seq(a@).skip(
                j as int + 1));
            assert(to_nat_seq(b@).skip(j as int).drop_first() =~= to_nat_seq(b@).skip(
                j as int + 1));
        }
        if a[j] > b[j] {
            return true;
        }
        if a[j] < b[j] {
            return false;
        }
        j = j + 1;
    }
    proof {
        if na <= nb {
            assert(to_nat_seq(a@).skip(j as int).len() == 0);
        } else {
            assert(to_nat_seq(b@).skip(j as int).len() == 0);
            assert(to_nat_seq(a@).skip(j as int).len() > 0);
        }
    }
    na > nb
}

} // verus!
