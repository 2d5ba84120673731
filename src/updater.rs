//! What an update check concludes from the latest published release.

use vstd::prelude::*;

verus! {

/// The latest release as the release feed describes it.
#[derive(Debug, Clone)]
pub struct GitHubRelease {
    pub tag_name: String,
    pub name: String,
    pub html_url: String,
    pub published_at: String,
    pub body: Option<String>,
}

/// The outcome of an update check.
#[derive(Debug, Clone)]
pub struct UpdateInfo {
    pub available: bool,
    pub current_version: String,
    pub latest_version: String,
    pub download_url: String,
    pub release_notes: String,
}

/// Release notes reported when the release carries none.
pub const NO_RELEASE_NOTES: &'static str = "Geen release notes beschikbaar.";

/// The pieces of `s` between dots, in order; there is always at least one.
pub open spec fn pieces(s: Seq<char>) -> Seq<Seq<char>>
    decreases s.len(),
{
    if s.len() == 0 {
        seq![Seq::empty()]
    } else {
        let p = pieces(s.drop_last());
        if s.last() == '.' {
            p.push(Seq::empty())
        } else {
            p.update(p.len() - 1, p.last().push(s.last()))
        }
    }
}

pub open spec fn is_digit(c: char) -> bool {
    '0' <= c && c <= '9'
}

/// The number that the decimal digits `t` spell.
pub open spec fn digits_value(t: Seq<char>) -> nat
    decreases t.len(),
{
    if t.len() == 0 {
        0
    } else {
        digits_value(t.drop_last()) * 10 + (t.last() as nat - '0' as nat) as nat
    }
}

/// `t` without an optional leading `+`.
pub open spec fn unsigned_digits(t: Seq<char>) -> Seq<char> {
    if t.len() > 0 && t[0] == '+' {
        t.drop_first()
    } else {
        t
    }
}

/// `t` read as a `u32`: an optional `+`, then one or more decimal digits of a
/// value that fits.
pub open spec fn parse_u32(t: Seq<char>) -> Option<u32> {
    let d = unsigned_digits(t);
    if d.len() > 0 && (forall|i: int| 0 <= i < d.len() ==> is_digit(#[trigger] d[i])) && digits_value(d)
        <= u32::MAX {
        Some(digits_value(d) as u32)
    } else {
        None
    }
}

/// The pieces that read as numbers, in order; the others are skipped.
pub open spec fn numbers_in(ps: Seq<Seq<char>>) -> Seq<u32>
    decreases ps.len(),
{
    if ps.len() == 0 {
        Seq::empty()
    } else {
        let n = numbers_in(ps.drop_last());
        match parse_u32(ps.last()) {
            Some(v) => n.push(v),
            None => n,
        }
    }
}

/// The numeric components of a dotted version text.
pub open spec fn version_numbers(s: Seq<char>) -> Seq<u32> {
    numbers_in(pieces(s))
}

/// Component `i` of a version, 0 when absent.
pub open spec fn component(v: Seq<u32>, i: int) -> u32 {
    if 0 <= i < v.len() {
        v[i]
    } else {
        0
    }
}

/// `latest` is a newer version than `current`: their major, minor and patch
/// components, compared in that order, first differ with `latest` ahead.
pub open spec fn newer(current: Seq<char>, latest: Seq<char>) -> bool {
    let c = version_numbers(current);
    let l = version_numbers(latest);
    component(l, 0) > component(c, 0) || (component(l, 0) == component(c, 0) && (component(l, 1)
        > component(c, 1) || (component(l, 1) == component(c, 1) && component(l, 2) > component(c, 2))))
}

/// `s` after every leading `v`.
pub open spec fn without_leading_v(s: Seq<char>) -> Seq<char>
    decreases s.len(),
{
    if s.len() > 0 && s[0] == 'v' {
        without_leading_v(s.drop_first())
    } else {
        s
    }
}

pub proof fn lemma_pieces_nonempty(s: Seq<char>)
    ensures
        pieces(s).len() >= 1,
    decreases s.len(),
{
    if s.len() > 0 {
        lemma_pieces_nonempty(s.drop_last());
    }
}

/// Relies on `str::trim_start_matches` with a `char` pattern: every leading
/// occurrence of the character is removed.
#[verifier::external_body]
fn strip_leading_v(s: &str) -> (r: &str)
    ensures
        r@ == without_leading_v(s@),
{
    s.trim_start_matches('v')
}

/// `t` read as a `u32`, as `parse_u32` says.
fn parse_piece(t: &Vec<char>) -> (r: Option<u32>)
    ensures
        r == parse_u32(t@),
{
    let start: usize = if t.len() > 0 && t[0] == '+' {
        1
    } else {
        0
    };
    let ghost d = unsigned_digits(t@);
    assert(d =~= t@.subrange(start as int, t@.len() as int));
    if start >= t.len() {
        return None;
    }
    let limit: u64 = 4294967296;
    let mut acc: u64 = 0;
    let mut i: usize = start;
    while i < t.len()
        invariant
            limit == 4294967296,
            start <= i <= t@.len(),
            d == t@.subrange(start as int, t@.len() as int),
            d == unsigned_digits(t@),
            forall|k: int| start <= k < i ==> is_digit(#[trigger] t@[k]),
            acc == if digits_value(t@.subrange(start as int, i as int)) < limit {
                digits_value(t@.subrange(start as int, i as int))
            } else {
                limit as nat
            },
        decreases t@.len() - i,
    {
        let c = t[i];
        if !('0' <= c && c <= '9') {
            proof {
                assert(d[i - start] == t@[i as int]);
                assert(!is_digit(d[i - start]));
                assert(!is_digit(unsigned_digits(t@)[i - start]));
            }
            return None;
        }
        let ghost pre = t@.subrange(start as int, i as int);
        let ghost next = t@.subrange(start as int, i as int + 1);
        assert(next.drop_last() =~= pre);
        let digit: u64 = (c as u64) - ('0' as u64);
        proof {
            let v = digits_value(pre);
            assert(digits_value(next) == v * 10 + digit);
            if v >= limit {
                assert(v * 10 + digit >= limit) by (nonlinear_arith)
                    requires
                        v >= limit,
                        digit >= 0,
                ;
            }
        }
        if acc >= limit {
            acc = limit;
        } else {
            assert(acc * 10 <= limit * 10) by (nonlinear_arith)
                requires
                    acc < limit,
            ;
            let n = acc * 10 + digit;
            acc = if n >= limit {
                limit
            } else {
                n
            };
        }
        i = i + 1;
    }
    assert(t@.subrange(start as int, i as int) =~= d);
    assert forall|k: int| 0 <= k < d.len() implies is_digit(#[trigger] d[k]) by {
        assert(d[k] == t@[start + k]);
    }
    if acc >= limit {
        None
    } else {
        Some(acc as u32)
    }
}

/// The numeric components of a dotted version text.
fn version_numbers_of(s: &str) -> (r: Vec<u32>)
    ensures
        r@ == version_numbers(s@),
{
    let chars = chars_of(s);
    let mut nums: Vec<u32> = Vec::new();
    let mut cur: Vec<char> = Vec::new();
    let mut i: usize = 0;
    while i < chars.len()
        invariant
            i <= chars@.len(),
            chars@ == s@,
            pieces(chars@.subrange(0, i as int)).len() >= 1,
            nums@ == numbers_in(pieces(chars@.subrange(0, i as int)).drop_last()),
            cur@ == pieces(chars@.subrange(0, i as int)).last(),
        decreases chars@.len() - i,
    {
        let ghost pre = chars@.subrange(0, i as int);
        let ghost next = chars@.subrange(0, i as int + 1);
        assert(next.drop_last() =~= pre);
        let c = chars[i];
        if c == '.' {
            proof {
                assert(pieces(next).drop_last() =~= pieces(pre));
                assert(pieces(pre).drop_last().push(pieces(pre).last()) =~= pieces(pre));
            }
            let parsed = parse_piece(&cur);
            if let Some(v) = parsed {
                nums.push(v);
            }
            cur = Vec::new();
        } else {
            proof {
                assert(pieces(next).drop_last() =~= pieces(pre).drop_last());
            }
            cur.push(c);
        }
        i = i + 1;
    }
    assert(chars@.subrange(0, i as int) =~= s@);
    proof {
        lemma_pieces_nonempty(s@);
        assert(pieces(s@).drop_last().push(pieces(s@).last()) =~= pieces(s@));
    }
    let last = parse_piece(&cur);
    if let Some(v) = last {
        nums.push(v);
    }
    nums
}

/// Whether `latest` is a newer version than `current` (major, minor and
/// patch compared in turn; a missing component counts as 0, pieces that are
/// not numbers are skipped).
pub fn is_newer_version(current: &str, latest: &str) -> (r: bool)
    ensures
        r == newer(current@, latest@),
{
    let c = version_numbers_of(current);
    let l = version_numbers_of(latest);
    let mut i: usize = 0;
    while i < 3
        invariant
            i <= 3,
            c@ == version_numbers(current@),
            l@ == version_numbers(latest@),
            forall|k: int| 0 <= k < i ==> component(l@, k) == component(c@, k),
        decreases 3 - i,
    {
        let curr: u32 = if i < c.len() {
            c[i]
        } else {
            0
        };
        let lat: u32 = if i < l.len() {
            l[i]
        } else {
            0
        };
        if lat > curr {
            return true;
        } else if lat < curr {
            return false;
        }
        i = i + 1;
    }
    false
}

/// What an update check reports for the running version `current_version`
/// and the latest release.
pub fn update_info(current_version: &str, release: GitHubRelease) -> (r: UpdateInfo)
    ensures
        r.available == newer(current_version@, without_leading_v(release.tag_name@)),
        r.current_version@ == current_version@,
        r.latest_version@ == without_leading_v(release.tag_name@),
        r.download_url == release.html_url,
        r.release_notes@ == match release.body {
            Some(b) => b@,
            None => NO_RELEASE_NOTES@,
        },
{
    let latest = strip_leading_v(release.tag_name.as_str());
    let available = is_newer_version(current_version, latest);
    let latest_version = latest.to_owned();
    let release_notes = match release.body {
        Some(b) => b,
        None => NO_RELEASE_NOTES.to_owned(),
    };
    UpdateInfo {
        available,
        current_version: current_version.to_owned(),
        latest_version,
        download_url: release.html_url,
        release_notes,
    }
}

/// The characters of `s`.
fn chars_of(s: &str) -> (v: Vec<char>)
    ensures
        v@ == s@,
{
    let mut v: Vec<char> = Vec::new();
    for c in it: s.chars()
        invariant
            v@ == it.seq().subrange(0, it.index() as int),
    {
        v.push(c);
    }
    v
}

} // verus!
