//! Session cookie handling for the site login window.
//!
//! Login counts as done once the site sets a non-empty `session` cookie; the whole
//! cookie header is then handed to the usual save-and-verify path.

use vstd::prelude::*;
use vstd::string::*;
use crate::text::{
    chars_eq, chars_of, join, lemma_split_nonempty, slice_chars, split_chars, split_on, starts_with, string_of,
    trim, trimmed,
};

verus! {

pub open spec fn session_prefix() -> Seq<char> {
    "session="@
}

/// The value of the first piece whose trimmed text starts with `session=` and goes on
/// after it; `None` when there is no such piece.
pub open spec fn first_session(parts: Seq<Seq<char>>) -> Option<Seq<char>>
    decreases parts.len(),
{
    if parts.len() == 0 {
        None
    } else {
        let t = trim(parts[0]);
        if starts_with(t, session_prefix()) && t.len() > session_prefix().len() {
            Some(t.skip(session_prefix().len() as int))
        } else {
            first_session(parts.drop_first())
        }
    }
}

/// The `session` value of a cookie header (`name=value; name=value; ...`).
pub open spec fn session_of(cookie_header: Seq<char>) -> Option<Seq<char>> {
    first_session(split_on(cookie_header, ';'))
}

/// Extracts the non-empty `session` value from a cookie header.
pub fn extract_session(cookie_header: &str) -> (res: Option<String>)
    ensures
        match session_of(cookie_header@) {
            Some(v) => res matches Some(s) && s@ == v,
            None => res is None,
        },
{
    let chars = chars_of(cookie_header);
    let parts = split_chars(chars.as_slice(), ';');
    let ghost ps = parts@.map_values(|v: Vec<char>| v@);
    let prefix = chars_of("session=");
    let plen = prefix.len();
    assert(ps.skip(0) =~= ps);
    assert(ps == split_on(cookie_header@, ';'));
    assert(session_of(cookie_header@) == first_session(ps));
    let mut i: usize = 0;
    while i < parts.len()
        invariant
            i <= parts@.len(),
            ps == parts@.map_values(|v: Vec<char>| v@),
            prefix@ == session_prefix(),
            plen == prefix@.len(),
            session_of(cookie_header@) == first_session(ps),
            first_session(ps) == first_session(ps.skip(i as int)),
        decreases parts@.len() - i,
    {
        let part = string_of(parts[i].as_slice());
        let t = trimmed(part.as_str());
        assert(ps.skip(i as int).drop_first() =~= ps.skip(i + 1));
        assert(ps.skip(i as int)[0] == parts@[i as int]@);
        if t.len() > plen {
            let head = slice_chars(t.as_slice(), 0, plen);
            if chars_eq(head.as_slice(), prefix.as_slice()) {
                let value = slice_chars(t.as_slice(), plen, t.len());
                assert(starts_with(t@, session_prefix()));
                assert(value@ =~= t@.skip(plen as int));
                return Some(string_of(value.as_slice()));
            }
        }
        i = i + 1;
    }
    None
}

pub open spec fn cookie_pair_text(pair: (String, String)) -> Seq<char> {
    pair.0@ + "="@ + pair.1@
}

/// A cookie request header from `(name, value)` pairs: `name=value` joined by `; `.
pub fn build_cookie_header(cookies: &[(String, String)]) -> (res: String)
    ensures
        res@ == join(cookies@.map_values(|p: (String, String)| cookie_pair_text(p)), "; "@),
{
    let ghost texts = cookies@.map_values(|p: (String, String)| cookie_pair_text(p));
    let mut header = String::new();
    let mut i: usize = 0;
    while i < cookies.len()
        invariant
            i <= cookies@.len(),
            texts == cookies@.map_values(|p: (String, String)| cookie_pair_text(p)),
            header@ == join(texts.take(i as int), "; "@),
        decreases cookies@.len() - i,
    {
        let ghost before = header@;
        if i > 0 {
            header.append("; ");
        }
        header.append(cookies[i].0.as_str());
        header.append("=");
        header.append(cookies[i].1.as_str());
        proof {
            let prev = texts.take(i as int);
            assert(texts.take(i + 1).drop_last() =~= prev);
            assert(texts.take(i + 1).last() == cookie_pair_text(cookies@[i as int]));
            if i == 0 {
                assert(join(texts.take(1), "; "@) == texts.take(1)[0]);
            }
        }
        i = i + 1;
        assert(header@ =~= join(texts.take(i as int), "; "@));
    }
    assert(texts.take(cookies@.len() as int) =~= texts);
    header
}


/// The expiry (a Unix timestamp, `None` for a session-only cookie) of the first cookie
/// named `session`, if any.
pub open spec fn session_cookie_expiry(cookies: Seq<(String, Option<i64>)>) -> Option<Option<i64>>
    decreases cookies.len(),
{
    if cookies.len() == 0 {
        None
    } else if cookies[0].0@ == "session"@ {
        Some(cookies[0].1)
    } else {
        session_cookie_expiry(cookies.drop_first())
    }
}

/// The expiry the server gave the session cookie, as a Unix timestamp: only one that is
/// still ahead of `now` counts. A session-only cookie, a missing session cookie and an
/// expiry already past (such as the epoch) give `None`. It is shown, never enforced.
pub fn session_expiry(cookies: &[(String, Option<i64>)], now: i64) -> (res: Option<i64>)
    ensures
        res == match session_cookie_expiry(cookies@) {
            Some(Some(t)) => if t > now { Some(t) } else { None },
            _ => None,
        },
{
    let mut i: usize = 0;
    assert(cookies@.skip(0) =~= cookies@);
    while i < cookies.len()
        invariant
            i <= cookies@.len(),
            session_cookie_expiry(cookies@) == session_cookie_expiry(cookies@.skip(i as int)),
        decreases cookies@.len() - i,
    {
        assert(cookies@.skip(i as int).drop_first() =~= cookies@.skip(i + 1));
        assert(cookies@.skip(i as int)[0] == cookies@[i as int]);
        if crate::text::str_eq(cookies[i].0.as_str(), "session") {
            return match cookies[i].1 {
                Some(t) => if t > now { Some(t) } else { None },
                None => None,
            };
        }
        i = i + 1;
    }
    None
}

/// What the login poll does on one tick.
#[derive(Debug, Clone, Copy, PartialEq, Eq, Structural)]
pub enum LoginStep {
    /// The login already ended (success, cancel or timeout): stop polling.
    Stop,
    /// The deadline passed: close the window and report a timeout.
    TimedOut,
    /// No session yet: poll again.
    Wait,
    /// A session cookie is present: report success with the cookie header.
    LoggedIn,
}

/// One tick of the login poll: a login that already ended stops it; past the deadline
/// it times out; otherwise it succeeds once the cookies carry a session.
pub fn login_step(ended: bool, deadline_passed: bool, session_present: bool) -> (res: LoginStep)
    ensures
        res == if ended {
            LoginStep::Stop
        } else if deadline_passed {
            LoginStep::TimedOut
        } else if session_present {
            LoginStep::LoggedIn
        } else {
            LoginStep::Wait
        },
{
    if ended {
        LoginStep::Stop
    } else if deadline_passed {
        LoginStep::TimedOut
    } else if session_present {
        LoginStep::LoggedIn
    } else {
        LoginStep::Wait
    }
}


/// Splitting text that ends in a piece without `sep` extends the last piece.
proof fn lemma_split_extend(a: Seq<char>, b: Seq<char>, sep: char)
    requires
        !b.contains(sep),
    ensures
        split_on(a + b, sep) == split_on(a, sep).update(
            split_on(a, sep).len() - 1,
            split_on(a, sep).last() + b,
        ),
    decreases b.len(),
{
    lemma_split_nonempty(a, sep);
    if b.len() == 0 {
        assert(a + b =~= a);
        assert(split_on(a, sep).last() + b =~= split_on(a, sep).last());
        assert(split_on(a, sep).update(split_on(a, sep).len() - 1, split_on(a, sep).last()) =~= split_on(a, sep));
    } else {
        let b0 = b.drop_last();
        assert(!b0.contains(sep)) by {
            if b0.contains(sep) {
                let k = choose|k: int| 0 <= k < b0.len() && b0[k] == sep;
                assert(b[k] == sep);
            }
        }
        lemma_split_extend(a, b0, sep);
        assert((a + b).drop_last() =~= a + b0);
        assert((a + b).last() == b.last());
        assert(b.last() != sep) by {
            assert(b[b.len() - 1] == b.last());
        }
        lemma_split_nonempty(a + b0, sep);
        let pa = split_on(a, sep);
        let prev = split_on(a + b0, sep);
        assert(prev.last() == pa.last() + b0);
        assert(prev.last().push(b.last()) =~= pa.last() + b);
        assert(prev.update(prev.len() - 1, prev.last().push(b.last())) =~= pa.update(pa.len() - 1, pa.last() + b));
    }
}

/// Splitting at a separator followed by a piece without it adds that piece.
proof fn lemma_split_after_sep(a: Seq<char>, b: Seq<char>, sep: char)
    requires
        !b.contains(sep),
    ensures
        split_on(a + seq![sep] + b, sep) == split_on(a, sep).push(b),
{
    let a1 = a + seq![sep];
    assert(a1.drop_last() =~= a);
    assert(a1.last() == sep);
    assert(split_on(a1, sep) == split_on(a, sep).push(Seq::empty()));
    lemma_split_extend(a1, b, sep);
    assert(Seq::<char>::empty() + b =~= b);
    assert(split_on(a, sep).push(Seq::empty()).update(split_on(a, sep).len() as int, b) =~= split_on(a, sep).push(b));
}

pub open spec fn spaced(parts: Seq<Seq<char>>) -> Seq<Seq<char>> {
    parts.map_values(|p: Seq<char>| seq![' '] + p)
}

/// Pieces joined with `; ` split at `;` into the first piece and the others, each after
/// a space.
proof fn lemma_split_joined(parts: Seq<Seq<char>>)
    requires
        parts.len() > 0,
        forall|i: int| 0 <= i < parts.len() ==> !(#[trigger] parts[i]).contains(';'),
    ensures
        split_on(join(parts, "; "@), ';') == seq![parts[0]] + spaced(parts.drop_first()),
    decreases parts.len(),
{
    reveal_strlit("; ");
    if parts.len() == 1 {
        let p = parts[0];
        lemma_split_extend(Seq::empty(), p, ';');
        assert(Seq::<char>::empty() + p =~= p);
        assert(split_on(Seq::<char>::empty(), ';') == seq![Seq::<char>::empty()]);
        assert(spaced(parts.drop_first()) =~= Seq::<Seq<char>>::empty());
        assert(seq![Seq::<char>::empty()].update(0, Seq::<char>::empty() + p) =~= seq![p]);
        assert(seq![parts[0]] + spaced(parts.drop_first()) =~= seq![p]);
    } else {
        let init = parts.drop_last();
        assert forall|i: int| 0 <= i < init.len() implies !(#[trigger] init[i]).contains(';') by {
            assert(init[i] == parts[i]);
        }
        lemma_split_joined(init);
        let last = parts.last();
        assert(!last.contains(';')) by {
            assert(parts[parts.len() - 1] == last);
        }
        let joined = join(init, "; "@);
        assert(join(parts, "; "@) == joined + "; "@ + last);
        assert(joined + "; "@ + last =~= joined + seq![';'] + (seq![' '] + last));
        assert(!(seq![' '] + last).contains(';')) by {
            if (seq![' '] + last).contains(';') {
                let k = choose|k: int| 0 <= k < (seq![' '] + last).len() && (seq![' '] + last)[k] == ';';
                assert(k > 0);
                assert(last[k - 1] == ';');
            }
        }
        lemma_split_after_sep(joined, seq![' '] + last, ';');
        assert(init[0] == parts[0]);
        assert(spaced(parts.drop_first()) =~= spaced(init.drop_first()).push(seq![' '] + last));
        assert(seq![parts[0]] + spaced(parts.drop_first()) =~= (seq![init[0]] + spaced(init.drop_first())).push(
            seq![' '] + last,
        ));
    }
}

proof fn lemma_session_ignores_leading_space(parts: Seq<Seq<char>>)
    ensures
        first_session(spaced(parts)) == first_session(parts),
    decreases parts.len(),
{
    if parts.len() > 0 {
        let p = parts[0];
        assert(spaced(parts)[0] == seq![' '] + p);
        assert((seq![' '] + p).drop_first() =~= p);
        assert(crate::text::is_ws(' '));
        assert(trim(seq![' '] + p) == trim(p));
        assert(spaced(parts).drop_first() =~= spaced(parts.drop_first()));
        lemma_session_ignores_leading_space(parts.drop_first());
    }
}

/// Login succeeds on the header it builds exactly when a cookie pair is a session: the
/// session read from a built cookie header is the one of the first pair whose trimmed
/// text is `session=` followed by a value, as long as no name or value contains `;`.
pub proof fn lemma_built_header_session(cookies: Seq<(String, String)>)
    requires
        forall|i: int| 0 <= i < cookies.len() ==> !cookie_pair_text(#[trigger] cookies[i]).contains(';'),
    ensures
        session_of(join(cookies.map_values(|p: (String, String)| cookie_pair_text(p)), "; "@)) == first_session(
            cookies.map_values(|p: (String, String)| cookie_pair_text(p)),
        ),
{
    let texts = cookies.map_values(|p: (String, String)| cookie_pair_text(p));
    if texts.len() == 0 {
        assert(join(texts, "; "@) == Seq::<char>::empty());
        assert(split_on(Seq::<char>::empty(), ';') == seq![Seq::<char>::empty()]);
        assert(trim(Seq::<char>::empty()) == Seq::<char>::empty());
        assert(seq![Seq::<char>::empty()].drop_first() =~= Seq::<Seq<char>>::empty());
        reveal_strlit("session=");
        let one = seq![Seq::<char>::empty()];
        assert(one[0] == Seq::<char>::empty());
        assert(trim(one[0]) == Seq::<char>::empty());
        assert(session_prefix().len() == 8);
        assert(!starts_with(trim(one[0]), session_prefix()));
        assert(one.drop_first() =~= Seq::<Seq<char>>::empty());
        assert(first_session(Seq::<Seq<char>>::empty()) is None);
        assert(first_session(one) is None);
    } else {
        assert forall|i: int| 0 <= i < texts.len() implies !(#[trigger] texts[i]).contains(';') by {
            assert(texts[i] == cookie_pair_text(cookies[i]));
        }
        lemma_split_joined(texts);
        let split = seq![texts[0]] + spaced(texts.drop_first());
        assert(split[0] == texts[0]);
        assert(split.drop_first() =~= spaced(texts.drop_first()));
        lemma_session_ignores_leading_space(texts.drop_first());
        assert(split_on(join(texts, "; "@), ';') == split);
        assert(first_session(split) == first_session(texts));
    }
}

} // verus!
