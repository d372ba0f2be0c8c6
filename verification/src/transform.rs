//! Manifest transformer: exact-match text substitution between the
//! path form and the version form of a member's dependency declaration.
//!
//! The transformation is a blind, formatting-preserving text scan: the
//! member's declaration prefix is looked up verbatim and every occurrence
//! is replaced, leftmost first.

use vstd::prelude::*;
use crate::errors::ErrorKind;
use crate::errors::UniverError;
use crate::model::Member;
use crate::model::MemberModel;
use crate::model::path_pattern;
use crate::model::version_pattern;

verus! {

/// `p` occurs in `t` starting at position `i`.
pub open spec fn occurs_at(t: Seq<char>, p: Seq<char>, i: int) -> bool {
    0 <= i && i + p.len() <= t.len() && t.subrange(i, i + p.len() as int) == p
}

/// `p` occurs somewhere in `t`.
pub open spec fn occurs(t: Seq<char>, p: Seq<char>) -> bool {
    exists|i: int| occurs_at(t, p, i)
}

/// The result of scanning `t` left to right and replacing every
/// occurrence of `from` (leftmost first, without overlap) with `to`.
pub open spec fn replace_all(t: Seq<char>, from: Seq<char>, to: Seq<char>) -> Seq<char>
    recommends
        from.len() >= 1,
    decreases t.len(),
{
    if t.len() == 0 || from.len() == 0 {
        t
    } else if occurs_at(t, from, 0) {
        to + replace_all(t.skip(from.len() as int), from, to)
    } else {
        seq![t[0]] + replace_all(t.skip(1), from, to)
    }
}

/// Tests whether `pat` occurs in `text` at character position `i`.
fn match_at(text: &str, pat: &str, i: usize) -> (b: bool)
    requires
        i <= text@.len(),
    ensures
        b == occurs_at(text@, pat@, i as int),
{
    let n = text.unicode_len();
    let m = pat.unicode_len();
    if m > n - i {
        return false;
    }
    let mut k: usize = 0;
    while k < m
        invariant
            n == text@.len(),
            m == pat@.len(),
            i + m <= n,
            k <= m,
            forall|kk: int| 0 <= kk < k ==> text@[i + kk] == pat@[kk],
        decreases m - k,
    {
        if text.get_char(i + k) != pat.get_char(k) {
            proof {
                assert(!occurs_at(text@, pat@, i as int)) by {
                    if occurs_at(text@, pat@, i as int) {
                        assert(text@.subrange(i as int, i + m)[k as int] == text@[i + k]);
                    }
                }
            }
            return false;
        }
        k += 1;
    }
    proof {
        assert(text@.subrange(i as int, i + m) =~= pat@);
    }
    true
}

/// Tests whether `pat` occurs anywhere in `text`.
fn contains_pattern(text: &str, pat: &str) -> (b: bool)
    ensures
        b == occurs(text@, pat@),
{
    let n = text.unicode_len();
    let m = pat.unicode_len();
    if m == 0 {
        proof {
            assert(occurs_at(text@, pat@, 0)) by {
                assert(text@.subrange(0, 0) =~= pat@);
            }
        }
        return true;
    }
    if m > n {
        proof {
            assert(!occurs(text@, pat@)) by {
                if occurs(text@, pat@) {
                    let i = choose|i: int| occurs_at(text@, pat@, i);
                }
            }
        }
        return false;
    }
    let mut i: usize = 0;
    while i <= n - m
        invariant
            n == text@.len(),
            m == pat@.len(),
            1 <= m <= n,
            i <= n - m + 1,
            forall|j: int| 0 <= j < i ==> !occurs_at(text@, pat@, j),
        decreases n - m + 1 - i,
    {
        if match_at(text, pat, i) {
            return true;
        }
        i += 1;
    }
    proof {
        assert(!occurs(text@, pat@)) by {
            if occurs(text@, pat@) {
                let j = choose|j: int| occurs_at(text@, pat@, j);
                assert(j <= n - m);
            }
        }
    }
    false
}

/// Replaces every occurrence of `from` in `text` (leftmost first,
/// without overlap) with `to`.
fn replace_all_str(text: &str, from: &str, to: &str) -> (r: String)
    requires
        from@.len() >= 1,
    ensures
        r@ == replace_all(text@, from@, to@),
{
    let n = text.unicode_len();
    let m = from.unicode_len();
    let mut out = String::new();
    let mut i: usize = 0;
    proof {
        assert(text@.skip(0) =~= text@);
    }
    while i < n
        invariant
            n == text@.len(),
            m == from@.len(),
            m >= 1,
            i <= n,
            out@ + replace_all(text@.skip(i as int), from@, to@) == replace_all(text@, from@, to@),
        decreases n - i,
    {
        let ghost rest = text@.skip(i as int);
        if match_at(text, from, i) {
            out.append(to);
            proof {
                assert(occurs_at(rest, from@, 0)) by {
                    assert(rest.subrange(0, m as int) =~= text@.subrange(
                        i as int,
                        i + m,
                    ));
                }
                assert(rest.skip(m as int) =~= text@.skip(i + m));
                assert(replace_all(rest, from@, to@) == to@ + replace_all(
                    text@.skip(i + m),
                    from@,
                    to@,
                ));
                assert((out@ + to@) + replace_all(text@.skip(i + m), from@, to@) =~= out@ + (to@
                    + replace_all(text@.skip(i + m), from@, to@)));
            }
            i += m;
        } else {
            out.append(text.substring_char(i, i + 1));
            proof {
                assert(!occurs_at(rest, from@, 0)) by {
                    if occurs_at(rest, from@, 0) {
                        assert(text@.subrange(i as int, i + m) =~= rest.subrange(0, m as int));
                    }
                }
                assert(rest.skip(1) =~= text@.skip(i + 1));
                assert(seq![rest[0]] =~= text@.subrange(i as int, i + 1));
                assert(replace_all(rest, from@, to@) == text@.subrange(i as int, i + 1)
                    + replace_all(text@.skip(i + 1), from@, to@));
                assert((out@ + text@.subrange(i as int, i + 1)) + replace_all(
                    text@.skip(i + 1),
                    from@,
                    to@,
                ) =~= out@ + (text@.subrange(i as int, i + 1) + replace_all(
                    text@.skip(i + 1),
                    from@,
                    to@,
                )));
            }
            i += 1;
        }
    }
    proof {
        assert(text@.skip(n as int) =~= Seq::<char>::empty());
        assert(out@ + Seq::<char>::empty() =~= out@);
    }
    out
}

/// An occurrence in a suffix of `t` is an occurrence in `t`.
proof fn lemma_occurs_skip_fwd(t: Seq<char>, p: Seq<char>, s: int, i: int)
    requires
        0 <= s <= t.len(),
        occurs_at(t.skip(s), p, i),
    ensures
        occurs_at(t, p, s + i),
{
    assert(t.subrange(s + i, s + i + p.len()) =~= t.skip(s).subrange(i, i + p.len()));
}

/// An occurrence in `t` at or beyond `s` is an occurrence in `t.skip(s)`.
proof fn lemma_occurs_skip_bwd(t: Seq<char>, p: Seq<char>, s: int, j: int)
    requires
        0 <= s <= j,
        occurs_at(t, p, j),
    ensures
        occurs_at(t.skip(s), p, j - s),
{
    assert(t.skip(s).subrange(j - s, j - s + p.len()) =~= t.subrange(j, j + p.len()));
}

/// Replacing a pattern that occurs makes the replacement occur.
pub proof fn lemma_replace_creates(t: Seq<char>, from: Seq<char>, to: Seq<char>)
    requires
        from.len() >= 1,
        occurs(t, from),
    ensures
        occurs(replace_all(t, from, to), to),
    decreases t.len(),
{
    let r = replace_all(t, from, to);
    let i = choose|i: int| occurs_at(t, from, i);
    assert(t.len() >= 1);
    if occurs_at(t, from, 0) {
        assert(occurs_at(r, to, 0)) by {
            assert(r.subrange(0, to.len() as int) =~= to);
        }
    } else {
        assert(i >= 1);
        lemma_occurs_skip_bwd(t, from, 1, i);
        lemma_replace_creates(t.skip(1), from, to);
        let r1 = replace_all(t.skip(1), from, to);
        let j = choose|j: int| occurs_at(r1, to, j);
        assert(occurs_at(r, to, j + 1)) by {
            assert(r.subrange(j + 1, j + 1 + to.len()) =~= r1.subrange(j, j + to.len()));
        }
    }
}

/// The pattern `p` does not overlap itself: no proper suffix of `p`
/// is also a prefix of `p`. Dependency declaration prefixes of sanely
/// named packages satisfy this.
pub open spec fn no_self_overlap(p: Seq<char>) -> bool {
    forall|k: int| 1 <= k < p.len() ==> !occurs_at(p, #[trigger] p.skip(k), 0)
}

/// After replacing `a` by `b` in a text that has `b.skip(j)` nowhere as
/// a prefix, `b.skip(j)` is still not a prefix: a scan cannot fabricate
/// a partial occurrence of a non-self-overlapping `b`.
proof fn lemma_no_spurious_prefix(s: Seq<char>, a: Seq<char>, b: Seq<char>, j: int)
    requires
        a.len() >= 1,
        b.len() >= 1,
        no_self_overlap(b),
        1 <= j < b.len(),
        !occurs_at(s, b.skip(j), 0),
    ensures
        !occurs_at(replace_all(s, a, b), b.skip(j), 0),
    decreases s.len(),
{
    let r = replace_all(s, a, b);
    let bj = b.skip(j);
    if s.len() == 0 {
    } else if occurs_at(s, a, 0) {
        if occurs_at(r, bj, 0) {
            assert(occurs_at(b, bj, 0)) by {
                assert(b.subrange(0, bj.len() as int) =~= r.subrange(0, bj.len() as int));
            }
            assert(false);
        }
    } else {
        if occurs_at(r, bj, 0) {
            let r1 = replace_all(s.skip(1), a, b);
            assert(r == seq![s[0]] + r1);
            assert(bj[0] == r[0]);
            assert(r[0] == s[0]);
            if j + 1 == b.len() {
                assert(occurs_at(s, bj, 0)) by {
                    assert(s.subrange(0, 1) =~= bj);
                }
                assert(false);
            } else {
                assert(!occurs_at(s.skip(1), b.skip(j + 1), 0)) by {
                    if occurs_at(s.skip(1), b.skip(j + 1), 0) {
                        assert(occurs_at(s, bj, 0)) by {
                            assert forall|x: int| 0 <= x < bj.len() implies s.subrange(
                                0,
                                bj.len() as int,
                            )[x] == bj[x] by {
                                if x == 0 {
                                    assert(bj[0] == r[0]);
                                } else {
                                    assert(s.skip(1).subrange(0, b.len() - j - 1)[x - 1]
                                        == b.skip(j + 1)[x - 1]);
                                    assert(s.skip(1)[x - 1] == s[x]);
                                    assert(b.skip(j + 1)[x - 1] == bj[x]);
                                }
                            }
                            assert(s.subrange(0, bj.len() as int) =~= bj);
                        }
                    }
                }
                lemma_no_spurious_prefix(s.skip(1), a, b, j + 1);
                assert(occurs_at(r1, b.skip(j + 1), 0)) by {
                    assert forall|x: int| 0 <= x < b.len() - j - 1 implies #[trigger] (
                    r1.subrange(0, b.len() - j - 1)[x]) == b.skip(j + 1)[x] by {
                        assert(r.subrange(0, bj.len() as int)[x + 1] == bj[x + 1]);
                        assert(r[x + 1] == r1[x]);
                        assert(bj[x + 1] == b.skip(j + 1)[x]);
                    }
                    assert(r1.subrange(0, b.len() - j - 1) =~= b.skip(j + 1));
                }
                assert(false);
            }
        }
    }
}

/// Substituting `a` by `b` and then `b` by `a` restores the original
/// text, provided `b` did not occur beforehand and cannot overlap
/// itself.
pub proof fn lemma_replace_round_trip(t: Seq<char>, a: Seq<char>, b: Seq<char>)
    requires
        a.len() >= 1,
        b.len() >= 1,
        no_self_overlap(b),
        !occurs(t, b),
    ensures
        replace_all(replace_all(t, a, b), b, a) == t,
    decreases t.len(),
{
    let r = replace_all(t, a, b);
    if t.len() == 0 {
    } else if occurs_at(t, a, 0) {
        let t2 = t.skip(a.len() as int);
        assert(!occurs(t2, b)) by {
            if occurs(t2, b) {
                let i = choose|i: int| occurs_at(t2, b, i);
                lemma_occurs_skip_fwd(t, b, a.len() as int, i);
            }
        }
        lemma_replace_round_trip(t2, a, b);
        assert(r == b + replace_all(t2, a, b));
        assert(occurs_at(r, b, 0)) by {
            assert(r.subrange(0, b.len() as int) =~= b);
        }
        assert(r.skip(b.len() as int) =~= replace_all(t2, a, b));
        assert(replace_all(r, b, a) == a + replace_all(replace_all(t2, a, b), b, a));
        assert(a + t2 =~= t);
    } else {
        let t1 = t.skip(1);
        assert(!occurs(t1, b)) by {
            if occurs(t1, b) {
                let i = choose|i: int| occurs_at(t1, b, i);
                lemma_occurs_skip_fwd(t, b, 1, i);
            }
        }
        lemma_replace_round_trip(t1, a, b);
        let r1 = replace_all(t1, a, b);
        assert(r == seq![t[0]] + r1);
        assert(!occurs_at(t, b, 0));
        assert(!occurs_at(r, b, 0)) by {
            if occurs_at(r, b, 0) {
                if b.len() == 1 {
                    assert(occurs_at(t, b, 0)) by {
                        assert(t.subrange(0, 1) =~= b);
                    }
                } else {
                    assert(!occurs_at(t1, b.skip(1), 0)) by {
                        if occurs_at(t1, b.skip(1), 0) {
                            assert(occurs_at(t, b, 0)) by {
                                assert forall|x: int| 0 <= x < b.len() implies t.subrange(
                                    0,
                                    b.len() as int,
                                )[x] == b[x] by {
                                    if x == 0 {
                                        assert(b[0] == r[0]);
                                    } else {
                                        assert(t1.subrange(0, b.len() - 1)[x - 1] == b.skip(
                                            1,
                                        )[x - 1]);
                                        assert(t1[x - 1] == t[x]);
                                        assert(b.skip(1)[x - 1] == b[x]);
                                    }
                                }
                                assert(t.subrange(0, b.len() as int) =~= b);
                            }
                        }
                    }
                    lemma_no_spurious_prefix(t1, a, b, 1);
                    assert(occurs_at(r1, b.skip(1), 0)) by {
                        assert forall|x: int| 0 <= x < b.len() - 1 implies #[trigger] (
                        r1.subrange(0, b.len() - 1)[x]) == b.skip(1)[x] by {
                            assert(r.subrange(0, b.len() as int)[x + 1] == b[x + 1]);
                            assert(r[x + 1] == r1[x]);
                            assert(b.skip(1)[x] == b[x + 1]);
                        }
                        assert(r1.subrange(0, b.len() - 1) =~= b.skip(1));
                    }
                }
            }
        }
        assert(r.len() >= 1);
        assert(replace_all(r, b, a) == seq![r[0]] + replace_all(r.skip(1), b, a));
        assert(r.skip(1) =~= r1);
        assert(r[0] == t[0]);
        assert(seq![t[0]] + t1 =~= t);
    }
}

/// The member's dependency declaration is present in the text, in one
/// of its two forms.
pub open spec fn declaration_present(t: Seq<char>, m: MemberModel) -> bool {
    occurs(t, path_pattern(m)) || occurs(t, version_pattern(m))
}

/// The member's declaration is currently in path form, so the member
/// still needs to be switched to version form (and published).
pub open spec fn needs_publish(t: Seq<char>, m: MemberModel) -> bool {
    occurs(t, path_pattern(m))
}

/// Spec-level outcome of [`to_path_form`]: `None` exactly when the
/// version-form prefix is absent.
pub open spec fn path_rewrite(t: Seq<char>, m: MemberModel) -> Option<Seq<char>> {
    if occurs(t, version_pattern(m)) {
        Some(replace_all(t, version_pattern(m), path_pattern(m)))
    } else {
        None
    }
}

/// Spec-level outcome of [`to_version_form`]: a rewrite when the path
/// form is present, a no-op when only the version form is present,
/// `None` when neither is.
pub open spec fn version_rewrite(t: Seq<char>, m: MemberModel) -> Option<Seq<char>> {
    if occurs(t, path_pattern(m)) {
        Some(replace_all(t, path_pattern(m), version_pattern(m)))
    } else if occurs(t, version_pattern(m)) {
        Some(t)
    } else {
        None
    }
}

/// Message reported when a member's version-form declaration is absent.
pub open spec fn missing_version_form_message(m: MemberModel) -> Seq<char> {
    "dependency '"@ + m.name + "' with version '"@ + m.version
        + "' not found or has an invalid format, expected: "@ + version_pattern(m)
}

/// Message reported when a member's declaration is absent in both forms.
pub open spec fn missing_path_form_message(m: MemberModel) -> Seq<char> {
    "dependency '"@ + m.name + "' with path '"@ + m.path
        + "' not found or has an invalid format, expected: "@ + path_pattern(m)
}

/// Both declaration prefixes contain at least their literal middle part.
pub proof fn lemma_patterns_nonempty(m: MemberModel)
    ensures
        version_pattern(m).len() >= 1,
        path_pattern(m).len() >= 1,
{
    reveal_strlit(" = { version = \"");
    reveal_strlit(" = { path = \"");
}

/// Builds the error for a member whose version-form declaration is absent.
fn version_not_found_error(member: &Member) -> (e: UniverError)
    ensures
        e.kind == ErrorKind::NotFound,
        e.message@ == missing_version_form_message(member@),
{
    let mut msg = String::from_str("dependency '");
    msg.append(member.name.as_str());
    msg.append("' with version '");
    msg.append(member.version.as_str());
    msg.append("' not found or has an invalid format, expected: ");
    let pattern = member.dependency_with_version();
    msg.append(pattern.as_str());
    UniverError::new(ErrorKind::NotFound, msg)
}

/// Builds the error for a member whose declaration is absent in both forms.
fn path_not_found_error(member: &Member) -> (e: UniverError)
    ensures
        e.kind == ErrorKind::NotFound,
        e.message@ == missing_path_form_message(member@),
{
    let mut msg = String::from_str("dependency '");
    msg.append(member.name.as_str());
    msg.append("' with path '");
    msg.append(member.path.as_str());
    msg.append("' not found or has an invalid format, expected: ");
    let pattern = member.dependency_with_path();
    msg.append(pattern.as_str());
    UniverError::new(ErrorKind::NotFound, msg)
}

/// Switches the member's dependency declaration in `text` to path form
/// (local development mode): every occurrence of the version-form
/// prefix is replaced. Fails when the version-form prefix is absent —
/// which also catches a second application in a row.
pub fn to_path_form(text: &str, member: &Member) -> (r: Result<String, UniverError>)
    ensures
        (match r {
            Ok(s) => path_rewrite(text@, member@) == Some(s@),
            Err(e) => {
                &&& path_rewrite(text@, member@) is None
                &&& e.kind == ErrorKind::NotFound
                &&& e.message@ == missing_version_form_message(member@)
            },
        }),
{
    let vpat = member.dependency_with_version();
    if contains_pattern(text, vpat.as_str()) {
        let ppat = member.dependency_with_path();
        proof {
            lemma_patterns_nonempty(member@);
        }
        Ok(replace_all_str(text, vpat.as_str(), ppat.as_str()))
    } else {
        Err(version_not_found_error(member))
    }
}

/// Switches the member's dependency declaration in `text` to version
/// form (release mode). A member whose declaration is already in
/// version form is skipped: the text is returned unchanged. Fails only
/// when the declaration is absent in both forms.
pub fn to_version_form(text: &str, member: &Member) -> (r: Result<String, UniverError>)
    ensures
        (match r {
            Ok(s) => version_rewrite(text@, member@) == Some(s@),
            Err(e) => {
                &&& version_rewrite(text@, member@) is None
                &&& e.kind == ErrorKind::NotFound
                &&& e.message@ == missing_path_form_message(member@)
            },
        }),
{
    let ppat = member.dependency_with_path();
    if contains_pattern(text, ppat.as_str()) {
        let vpat = member.dependency_with_version();
        proof {
            lemma_patterns_nonempty(member@);
        }
        Ok(replace_all_str(text, ppat.as_str(), vpat.as_str()))
    } else {
        let vpat = member.dependency_with_version();
        if contains_pattern(text, vpat.as_str()) {
            Ok(text.to_owned())
        } else {
            Err(path_not_found_error(member))
        }
    }
}

/// Selects, in input order, the members whose dependency declaration in
/// `text` is currently in path form: exactly those still need to be
/// published. A member present in version form is skipped; a member
/// whose declaration is absent in both forms fails the selection
/// (fail fast, first violation wins).
pub fn members_to_publish(text: &str, members: &Vec<Member>) -> (r: Result<
    Vec<Member>,
    UniverError,
>)
    ensures
        (match r {
            Ok(c) => {
                &&& forall|k: int|
                    0 <= k < members.deep_view().len() ==> declaration_present(
                        text@,
                        #[trigger] members.deep_view()[k],
                    )
                &&& c.deep_view() == members.deep_view().filter(
                    |m: MemberModel| needs_publish(text@, m),
                )
            },
            Err(e) => exists|k: int|
                {
                    &&& 0 <= k < members.deep_view().len()
                    &&& !declaration_present(text@, #[trigger] members.deep_view()[k])
                    &&& forall|j: int|
                        0 <= j < k ==> declaration_present(text@, #[trigger] members.deep_view()[j])
                    &&& e.kind == ErrorKind::NotFound
                    &&& e.message@ == missing_path_form_message(members.deep_view()[k])
                },
        }),
{
    let ghost ms = members.deep_view();
    let ghost pred = |m: MemberModel| needs_publish(text@, m);
    let mut result: Vec<Member> = Vec::new();
    let mut k: usize = 0;
    proof {
        reveal(Seq::filter);
        assert(ms.subrange(0, 0).filter(pred) =~= Seq::<MemberModel>::empty());
    }
    while k < members.len()
        invariant
            ms == members.deep_view(),
            ms.len() == members@.len(),
            pred == (|m: MemberModel| needs_publish(text@, m)),
            k <= members@.len(),
            forall|j: int| 0 <= j < k ==> declaration_present(text@, #[trigger] ms[j]),
            result.deep_view() == ms.subrange(0, k as int).filter(pred),
        decreases members@.len() - k,
    {
        let member = &members[k];
        proof {
            assert(member@ == ms[k as int]);
        }
        let ghost dv0 = result.deep_view();
        let ppat = member.dependency_with_path();
        if contains_pattern(text, ppat.as_str()) {
            result.push(member.clone());
            proof {
                reveal(Seq::filter);
                assert(result.deep_view() =~= dv0.push(ms[k as int]));
                assert(ms.subrange(0, k + 1).drop_last() =~= ms.subrange(0, k as int));
                assert(ms.subrange(0, k + 1).last() == ms[k as int]);
                assert(result.deep_view() =~= ms.subrange(0, k + 1).filter(pred));
            }
        } else {
            let vpat = member.dependency_with_version();
            if !contains_pattern(text, vpat.as_str()) {
                return Err(path_not_found_error(member));
            }
            proof {
                reveal(Seq::filter);
                assert(ms.subrange(0, k + 1).drop_last() =~= ms.subrange(0, k as int));
                assert(ms.subrange(0, k + 1).last() == ms[k as int]);
                assert(result.deep_view() =~= ms.subrange(0, k + 1).filter(pred));
            }
        }
        k += 1;
    }
    proof {
        assert(ms.subrange(0, ms.len() as int) =~= ms);
    }
    Ok(result)
}

/// Round-trip law, develop direction first: switching a member's
/// declaration from version form to path form and back restores the
/// original manifest text exactly.
pub proof fn lemma_round_trip_path_then_version(t: Seq<char>, m: MemberModel)
    requires
        occurs(t, version_pattern(m)),
        !occurs(t, path_pattern(m)),
        no_self_overlap(path_pattern(m)),
    ensures
        path_rewrite(t, m) is Some,
        version_rewrite(path_rewrite(t, m)->Some_0, m) == Some(t),
{
    lemma_patterns_nonempty(m);
    lemma_replace_creates(t, version_pattern(m), path_pattern(m));
    lemma_replace_round_trip(t, version_pattern(m), path_pattern(m));
}

/// Round-trip law, publish direction first: switching a member's
/// declaration from path form to version form and back restores the
/// original manifest text exactly.
pub proof fn lemma_round_trip_version_then_path(t: Seq<char>, m: MemberModel)
    requires
        occurs(t, path_pattern(m)),
        !occurs(t, version_pattern(m)),
        no_self_overlap(version_pattern(m)),
    ensures
        version_rewrite(t, m) is Some,
        path_rewrite(version_rewrite(t, m)->Some_0, m) == Some(t),
{
    lemma_patterns_nonempty(m);
    lemma_replace_creates(t, path_pattern(m), version_pattern(m));
    lemma_replace_round_trip(t, path_pattern(m), version_pattern(m));
}

/// A dependency declaration prefix `name + mid + value + '"'` cannot
/// overlap itself when the quote and brace characters of `mid` occur
/// nowhere else in it: any self-overlap would have to align the final
/// quote with the quote ending `mid`, and then place the brace of
/// `mid` inside the value or beyond it.
proof fn lemma_declaration_pattern_no_self_overlap(
    name: Seq<char>,
    mid: Seq<char>,
    val: Seq<char>,
    brace: int,
)
    requires
        mid.len() >= 2,
        0 <= brace < mid.len() - 1,
        mid[mid.len() - 1] == '"',
        forall|j: int| 0 <= j < mid.len() - 1 ==> mid[j] != '"',
        forall|j: int| 0 <= j < mid.len() && j != brace ==> mid[j] != '{',
        mid[brace] == '{',
        !name.contains('"'),
        !val.contains('"'),
        !val.contains('{'),
    ensures
        no_self_overlap(name + mid + val + seq!['"']),
{
    let p = name + mid + val + seq!['"'];
    let nl = name.len() as int;
    let ml = mid.len() as int;
    let vl = val.len() as int;
    assert(p.len() == nl + ml + vl + 1);
    assert forall|k: int| 1 <= k < p.len() implies !occurs_at(p, #[trigger] p.skip(k), 0) by {
        if occurs_at(p, p.skip(k), 0) {
            let lsub = p.len() - k;
            assert forall|x: int| 0 <= x < lsub implies #[trigger] p[x] == p[k + x] by {
                assert(p.subrange(0, lsub)[x] == p.skip(k)[x]);
            }
            assert(p[k + (lsub - 1)] == p[p.len() - 1]);
            assert(p[p.len() - 1] == '"');
            assert(p[lsub - 1] == '"');
            // the quote at `lsub - 1` can only be the one ending `mid`
            assert(lsub - 1 == nl + ml - 1) by {
                if lsub - 1 < nl {
                    assert(name[lsub - 1] == '"');
                    assert(name.contains('"'));
                } else if lsub - 1 < nl + ml - 1 {
                    assert(mid[lsub - 1 - nl] == '"');
                } else if lsub - 1 > nl + ml - 1 && lsub - 1 < nl + ml + vl {
                    assert(val[lsub - 1 - nl - ml] == '"');
                    assert(val.contains('"'));
                }
            }
            // the brace of `mid` must then reappear after the prefix
            let x0 = nl + brace;
            assert(p[x0] == mid[brace]);
            assert(x0 < lsub);
            assert(p[k + x0] == p[x0]);
            assert(k + x0 >= nl + 1);
            if k + x0 < nl + ml {
                assert(p[k + x0] == mid[k + x0 - nl]);
                assert(k + x0 - nl != brace);
                assert(false);
            } else if k + x0 < nl + ml + vl {
                assert(p[k + x0] == val[k + x0 - nl - ml]);
                assert(val.contains('{'));
                assert(false);
            } else {
                assert(p[k + x0] == '"');
                assert(false);
            }
        }
    }
}

/// A member's path-form prefix cannot overlap itself when its name and
/// path contain no quote and its path contains no opening brace.
pub proof fn lemma_path_pattern_no_self_overlap(m: MemberModel)
    requires
        !m.name.contains('"'),
        !m.path.contains('"'),
        !m.path.contains('{'),
    ensures
        no_self_overlap(path_pattern(m)),
{
    reveal_strlit(" = { path = \"");
    reveal_strlit("\"");
    let mid = " = { path = \""@;
    assert(mid.len() == 13);
    assert("\""@ =~= seq!['"']);
    assert(path_pattern(m) =~= m.name + mid + m.path + seq!['"']);
    lemma_declaration_pattern_no_self_overlap(m.name, mid, m.path, 3);
}

/// A member's version-form prefix cannot overlap itself when its name
/// and version contain no quote and its version contains no opening
/// brace.
pub proof fn lemma_version_pattern_no_self_overlap(m: MemberModel)
    requires
        !m.name.contains('"'),
        !m.version.contains('"'),
        !m.version.contains('{'),
    ensures
        no_self_overlap(version_pattern(m)),
{
    reveal_strlit(" = { version = \"");
    reveal_strlit("\"");
    let mid = " = { version = \""@;
    assert(mid.len() == 16);
    assert("\""@ =~= seq!['"']);
    assert(version_pattern(m) =~= m.name + mid + m.version + seq!['"']);
    lemma_declaration_pattern_no_self_overlap(m.name, mid, m.version, 3);
}

/// Idempotence law: for a member whose declaration is already in
/// version form, switching to version form is a no-op (not an error),
/// and a second application returns the same text as the first.
pub proof fn lemma_version_rewrite_idempotent(t: Seq<char>, m: MemberModel)
    requires
        occurs(t, version_pattern(m)),
        !occurs(t, path_pattern(m)),
    ensures
        version_rewrite(t, m) == Some(t),
        version_rewrite(version_rewrite(t, m)->Some_0, m) == version_rewrite(t, m),
{
}

} // verus!
