//! Configuration intake: the metadata gate and the subnet list.
//!
//! The file must be owned by the root account and carry no permission bit
//! at all: any read bit or any write, execute or mode bit set refuses the
//! file before a single line is looked at. Lines starting with `#` are
//! comments; every other line must parse as a subnet, and duplicates
//! collapse to one entry, first occurrence kept.

use vstd::prelude::*;

use crate::error::{ConfigError, Error};
use crate::parse::spec_parse_subnet;
use crate::subnet::Subnet;

verus! {

/// The metadata gate: owned by uid 0, and no permission bit set — the
/// twelve low mode bits are all clear.
pub open spec fn config_meta_ok(uid: u32, mode: u32) -> bool {
    uid == 0 && mode % 0o10000 == 0
}

/// Checks ownership and permission bits before any parsing. Ownership is
/// judged first: a file not owned by root is refused as such even if its
/// mode would also be refused.
pub fn check_config_meta(uid: u32, mode: u32) -> (r: Result<(), Error>)
    ensures
        r is Ok <==> config_meta_ok(uid, mode),
        uid != 0 ==> r == Err::<(), Error>(Error::Config(ConfigError::Ownership)),
        uid == 0 && mode % 0o10000 != 0 ==> r == Err::<(), Error>(
            Error::Config(ConfigError::Permissions),
        ),
{
    proof {
        assert(mode & 0o7777 == mode % 0o10000) by (bit_vector);
    }
    if uid != 0 {
        Err(Error::Config(ConfigError::Ownership))
    } else if mode & 0o7777 != 0 {
        Err(Error::Config(ConfigError::Permissions))
    } else {
        Ok(())
    }
}

/// A comment line: its first byte is `#`.
pub open spec fn is_comment(l: Seq<u8>) -> bool {
    l.len() > 0 && l[0] == 35u8
}

/// True iff the vector already holds this subnet.
fn contains_subnet(v: &Vec<Subnet>, s: Subnet) -> (r: bool)
    ensures
        r == v@.contains(s),
{
    let mut n: usize = 0;
    while n < v.len()
        invariant
            n <= v@.len(),
            forall|j: int| 0 <= j < n ==> v@[j] != s,
        decreases v@.len() - n,
    {
        if v[n] == s {
            return true;
        }
        n = n + 1;
    }
    false
}

/// Some line before index `n` is a non-comment line that parses to `x`.
pub open spec fn from_lines(lines: Seq<Vec<u8>>, n: int, x: Subnet) -> bool {
    exists|j: int|
        0 <= j < n && !is_comment(#[trigger] lines[j]@) && spec_parse_subnet(lines[j]@) == Ok::<
            Subnet,
            crate::subnet::Error,
        >(x)
}

/// A witness below a bound is a witness below any larger bound.
proof fn lemma_from_lines_widen(lines: Seq<Vec<u8>>, n: int, m: int, x: Subnet)
    requires
        from_lines(lines, n, x),
        n <= m,
    ensures
        from_lines(lines, m, x),
{
    let j = choose|j: int|
        0 <= j < n && !is_comment(#[trigger] lines[j]@) && spec_parse_subnet(lines[j]@) == Ok::<
            Subnet,
            crate::subnet::Error,
        >(x);
    assert(0 <= j < m && !is_comment(lines[j]@) && spec_parse_subnet(lines[j]@) == Ok::<
        Subnet,
        crate::subnet::Error,
    >(x));
}

/// Parses the configuration lines into the deduplicated subnet list.
///
/// Success is owed exactly when every non-comment line parses; the result
/// then holds each configured subnet once: every entry comes from some
/// line, every configured subnet is an entry, and no entry repeats. A
/// failure names the first offending line and what was wrong with it.
pub fn load_config(lines: &Vec<Vec<u8>>) -> (r: Result<Vec<Subnet>, Error>)
    ensures
        r matches Ok(subs) ==> {
            &&& forall|j: int|
                0 <= j < lines@.len() && !is_comment(lines@[j]@) ==> spec_parse_subnet(lines@[j]@) is Ok
            &&& forall|a: int, b: int| 0 <= a < b < subs@.len() ==> subs@[a] != subs@[b]
            &&& forall|idx: int| 0 <= idx < subs@.len() ==> (#[trigger] subs@[idx]).wf()
            &&& forall|idx: int|
                0 <= idx < subs@.len() ==> from_lines(
                    lines@,
                    lines@.len() as int,
                    #[trigger] subs@[idx],
                )
            &&& forall|j: int|
                0 <= j < lines@.len() && !is_comment(#[trigger] lines@[j]@) && spec_parse_subnet(
                    lines@[j]@,
                ) is Ok ==> subs@.contains(spec_parse_subnet(lines@[j]@)->Ok_0)
        },
        r is Err ==> exists|i: int|
            {
                &&& 0 <= i < lines@.len()
                &&& !is_comment(#[trigger] lines@[i]@)
                &&& spec_parse_subnet(lines@[i]@) is Err
                &&& r == Err::<Vec<Subnet>, Error>(
                    Error::Config(
                        ConfigError::Line(i as usize, spec_parse_subnet(lines@[i]@)->Err_0),
                    ),
                )
                &&& forall|j: int|
                    0 <= j < i && !is_comment(#[trigger] lines@[j]@) ==> spec_parse_subnet(
                        lines@[j]@,
                    ) is Ok
            },
{
    let mut out: Vec<Subnet> = Vec::new();
    let mut n: usize = 0;
    while n < lines.len()
        invariant
            n <= lines@.len(),
            forall|j: int|
                0 <= j < n && !is_comment(#[trigger] lines@[j]@) ==> spec_parse_subnet(lines@[j]@) is Ok,
            forall|a: int, b: int| 0 <= a < b < out@.len() ==> out@[a] != out@[b],
            forall|idx: int| 0 <= idx < out@.len() ==> (#[trigger] out@[idx]).wf(),
            forall|idx: int|
                0 <= idx < out@.len() ==> from_lines(lines@, n as int, #[trigger] out@[idx]),
            forall|j: int|
                0 <= j < n && !is_comment(#[trigger] lines@[j]@) && spec_parse_subnet(lines@[j]@) is Ok
                    ==> out@.contains(spec_parse_subnet(lines@[j]@)->Ok_0),
        decreases lines@.len() - n,
    {
        let line = &lines[n];
        proof {
            assert(line@ == lines@[n as int]@);
        }
        let ghost prev = out@;
        let skip = line.len() > 0 && line[0] == 35;
        if !skip {
            proof {
                assert(!is_comment(lines@[n as int]@));
            }
            match Subnet::parse(line) {
                Ok(s) => {
                    proof {
                        assert(spec_parse_subnet(lines@[n as int]@) == Ok::<
                            Subnet,
                            crate::subnet::Error,
                        >(s));
                        assert(0 <= n < n + 1 && !is_comment(lines@[n as int]@)
                            && spec_parse_subnet(lines@[n as int]@) == Ok::<
                            Subnet,
                            crate::subnet::Error,
                        >(s));
                        assert(from_lines(lines@, n + 1, s));
                    }
                    if !contains_subnet(&out, s) {
                        out.push(s);
                        proof {
                            assert forall|x: Subnet| prev.contains(x) || x == s implies out@.contains(
                                x,
                            ) by {
                                if prev.contains(x) {
                                    let idx = prev.lemma_contains_to_index(x);
                                    assert(out@[idx] == x);
                                } else {
                                    assert(out@[prev.len() as int] == x);
                                }
                            }
                        }
                    }
                }
                Err(cause) => {
                    proof {
                        assert(spec_parse_subnet(lines@[n as int]@) == Err::<
                            Subnet,
                            crate::subnet::Error,
                        >(cause));
                    }
                    return Err(Error::Config(ConfigError::Line(n, cause)));
                }
            }
        } else {
            proof {
                assert(is_comment(lines@[n as int]@));
            }
        }
        proof {
            assert forall|idx: int| 0 <= idx < out@.len() implies from_lines(
                lines@,
                n + 1,
                #[trigger] out@[idx],
            ) by {
                if idx < prev.len() {
                    assert(out@[idx] == prev[idx]);
                    lemma_from_lines_widen(lines@, n as int, n + 1, out@[idx]);
                }
            }
            assert forall|x: Subnet| prev.contains(x) implies out@.contains(x) by {
                let idx = prev.lemma_contains_to_index(x);
                assert(out@[idx] == x);
            }
        }
        n = n + 1;
    }
    Ok(out)
}

} // verus!
