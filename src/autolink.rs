use vstd::prelude::*;

use crate::codec::{chars_of, encode, push_encode, push_lit, string_of};

verus! {

/// The four shapes of token that become links, in the order they are tried.
#[derive(Clone, Copy, Debug, PartialEq, Eq, Structural)]
pub enum LinkKind {
    /// An absolute `http` or `https` address.
    Url,
    /// A federated handle `@user@domain.tld`.
    Misskey,
    /// A single-domain handle `@name.tld`.
    Bluesky,
    /// A short handle `@name`.
    Twitter,
}

/// One recognized token, with the plain text before it and the whitespace (or
/// nothing, at the start) that it was found after.
#[derive(Debug)]
pub struct LinkPiece {
    pub gap: String,
    pub lead: String,
    pub kind: LinkKind,
    pub token: String,
}

impl LinkPiece {
    pub open spec fn view(&self) -> (Seq<char>, Seq<char>, LinkKind, Seq<char>) {
        (self.gap@, self.lead@, self.kind, self.token@)
    }
}

pub open spec fn piece_views(ps: Seq<LinkPiece>) -> Seq<(Seq<char>, Seq<char>, LinkKind, Seq<char>)> {
    ps.map_values(|p: LinkPiece| p.view())
}

/// What the link pattern's successive matches in `s` are, each as the text
/// before it, its lead and its token.
pub uninterp spec fn link_scan(s: Seq<char>) -> Seq<(Seq<char>, Seq<char>, Seq<char>)>;

/// The text that the matches cover, in order.
pub open spec fn joined(ms: Seq<(Seq<char>, Seq<char>, Seq<char>)>) -> Seq<char>
    decreases ms.len(),
{
    if ms.len() == 0 {
        Seq::empty()
    } else {
        ms[0].0 + ms[0].1 + ms[0].2 + joined(ms.skip(1))
    }
}

/// Whether `c` occurs in `t` at or after `from`.
pub open spec fn has_from(t: Seq<char>, c: char, from: int) -> bool {
    exists|i: int| from <= i < t.len() && #[trigger] t[i] == c
}

/// The shape of a matched token: an address unless it starts with `@`; then
/// federated with a second `@`, single-domain with a `.`, short otherwise.
pub open spec fn classify(t: Seq<char>) -> LinkKind {
    if t.len() == 0 || t[0] != '@' {
        LinkKind::Url
    } else if has_from(t, '@', 1) {
        LinkKind::Misskey
    } else if has_from(t, '.', 1) {
        LinkKind::Bluesky
    } else {
        LinkKind::Twitter
    }
}

/// The matches with the shape of each token.
pub open spec fn classified(ms: Seq<(Seq<char>, Seq<char>, Seq<char>)>) -> Seq<(Seq<char>, Seq<char>, LinkKind, Seq<char>)> {
    ms.map_values(|m: (Seq<char>, Seq<char>, Seq<char>)| (m.0, m.1, classify(m.2), m.2))
}

/// The text of `s` after the last of the pieces.
pub open spec fn rest_after(s: Seq<char>, ms: Seq<(Seq<char>, Seq<char>, Seq<char>)>) -> Seq<char> {
    s.skip(joined(ms).len() as int)
}

/// The link pattern: a lead of start or whitespace, then the first of the four
/// token shapes that matches (address, federated, single-domain, short handle).
pub const LINK_PATTERN: &'static str = r"(^|\s)(https?://[^\s<>']+|@[\w_\-]+@[\w_\-]+(?:\.[\w_\-]+)+|@[\w_\-]+(?:\.[\w_\-]+)+|@[\w_\-]{4,15})";

#[verifier::external_type_specification]
#[verifier::external_body]
pub struct ExRegex(regex::Regex);

#[verifier::external_type_specification]
#[verifier::external_body]
pub struct ExRegexError(regex::Error);

/// Relies on `regex::Regex::new`: compiles a pattern, or says why it cannot. Its
/// answer depends on the pattern alone, and `LINK_PATTERN` is a valid one.
#[verifier::external_body]
fn compile(pattern: &str) -> (r: Result<regex::Regex, regex::Error>)
    ensures
        pattern@ == LINK_PATTERN@ ==> r is Ok,
{
    regex::Regex::new(pattern)
}

/// Finds links in text: holds `LINK_PATTERN`, compiled once, for reuse.
pub struct Autolinker {
    re: regex::Regex,
}

/// `token` with each `"` written as `%22`.
pub open spec fn quote_pct(t: Seq<char>) -> Seq<char>
    decreases t.len(),
{
    if t.len() == 0 {
        Seq::empty()
    } else if t[0] == '"' {
        seq!['%', '2', '2'] + quote_pct(t.skip(1))
    } else {
        seq![t[0]] + quote_pct(t.skip(1))
    }
}

/// The last `@` before `hi`, or -1.
pub open spec fn last_at(t: Seq<char>, hi: int) -> int
    decreases hi,
{
    if hi <= 0 {
        -1
    } else if t[hi - 1] == '@' {
        hi - 1
    } else {
        last_at(t, hi - 1)
    }
}

pub open spec fn part_of(t: Seq<char>, a: int, b: int) -> Seq<char> {
    if 0 <= a <= b <= t.len() {
        t.subrange(a, b)
    } else {
        Seq::empty()
    }
}

/// Where a token of the given kind links to.
pub open spec fn href(kind: LinkKind, t: Seq<char>) -> Seq<char> {
    match kind {
        LinkKind::Url => quote_pct(t),
        LinkKind::Misskey => {
            let at = last_at(t, t.len() as int);
            seq!['h', 't', 't', 'p', 's', ':', '/', '/'] + part_of(t, at + 1, t.len() as int) + seq!['/'] + part_of(t, 1, at)
        },
        LinkKind::Bluesky => seq!['h', 't', 't', 'p', 's', ':', '/', '/', 'b', 's', 'k', 'y', '.', 'a', 'p', 'p', '/', 'p', 'r', 'o', 'f', 'i', 'l', 'e', '/'] + part_of(t, 1, t.len() as int),
        LinkKind::Twitter => seq!['h', 't', 't', 'p', 's', ':', '/', '/', 'x', '.', 'c', 'o', 'm', '/'] + part_of(t, 1, t.len() as int),
    }
}

/// The anchor element that a token becomes.
pub open spec fn anchor(kind: LinkKind, t: Seq<char>) -> Seq<char> {
    seq!['<', 'a', ' ', 't', 'a', 'r', 'g', 'e', 't', '=', '"', '_', 'b', 'l', 'a', 'n', 'k', '"', ' ', 'h', 'r', 'e', 'f', '=', '"'] + href(kind, t) + seq!['"', '>'] + encode(t, true) + seq!['<', '/', 'a', '>']
}

/// The pieces with each gap escaped, each lead kept, each token turned into an
/// anchor; then `tail` escaped.
pub open spec fn linked(ps: Seq<(Seq<char>, Seq<char>, LinkKind, Seq<char>)>, tail: Seq<char>) -> Seq<char>
    decreases ps.len(),
{
    if ps.len() == 0 {
        encode(tail, false)
    } else {
        encode(ps[0].0, false) + ps[0].1 + anchor(ps[0].2, ps[0].3) + linked(ps.skip(1), tail)
    }
}

fn push_href(out: &mut Vec<char>, kind: LinkKind, t: &[char])
    ensures
        final(out)@ == old(out)@ + href(kind, t@),
{
    let ghost o = old(out)@;
    match kind {
        LinkKind::Url => {
            let mut i: usize = 0;
            assert(t@.skip(0) =~= t@);
            while i < t.len()
                invariant
                    0 <= i <= t@.len(),
                    out@ + quote_pct(t@.skip(i as int)) == o + quote_pct(t@),
                decreases t@.len() - i,
            {
                assert(t@.skip(i as int).skip(1) =~= t@.skip(i + 1));
                if t[i] == '"' {
                    push_lit(out, &['%', '2', '2']);
                } else {
                    out.push(t[i]);
                }
                i += 1;
                assert(out@ + quote_pct(t@.skip(i as int)) =~= o + quote_pct(t@));
            }
            assert(t@.skip(i as int) =~= Seq::<char>::empty());
            assert(out@ =~= o + quote_pct(t@));
        },
        LinkKind::Misskey => {
            let n = t.len();
            let mut k: usize = n;
            while k > 0 && t[k - 1] != '@'
                invariant
                    k <= n == t@.len(),
                    last_at(t@, k as int) == last_at(t@, n as int),
                decreases k,
            {
                k -= 1;
            }
            let ghost at = last_at(t@, n as int);
            assert(k > 0 ==> at == k - 1);
            assert(k == 0 ==> at == -1);
            push_lit(out, &['h', 't', 't', 'p', 's', ':', '/', '/']);
            if k > 0 {
                push_slice(out, t, k, n);
                out.push('/');
                if 1 <= k - 1 {
                    push_slice(out, t, 1, k - 1);
                } else {
                    assert(part_of(t@, 1, at) =~= Seq::<char>::empty());
                }
            } else {
                push_slice(out, t, 0, n);
                out.push('/');
                assert(part_of(t@, 1, at) =~= Seq::<char>::empty());
            }
            assert(out@ =~= o + href(kind, t@));
        },
        LinkKind::Bluesky => {
            push_lit(out, &['h', 't', 't', 'p', 's', ':', '/', '/', 'b', 's', 'k', 'y', '.', 'a', 'p', 'p', '/', 'p', 'r', 'o', 'f', 'i', 'l', 'e', '/']);
            if t.len() >= 1 {
                push_slice(out, t, 1, t.len());
            }
            assert(out@ =~= o + href(kind, t@));
        },
        LinkKind::Twitter => {
            push_lit(out, &['h', 't', 't', 'p', 's', ':', '/', '/', 'x', '.', 'c', 'o', 'm', '/']);
            if t.len() >= 1 {
                push_slice(out, t, 1, t.len());
            }
            assert(out@ =~= o + href(kind, t@));
        },
    }
}

fn push_slice(out: &mut Vec<char>, t: &[char], a: usize, b: usize)
    requires
        a <= b <= t@.len(),
    ensures
        final(out)@ == old(out)@ + part_of(t@, a as int, b as int),
{
    let mut k: usize = a;
    while k < b
        invariant
            a <= k <= b <= t@.len(),
            out@ == old(out)@ + t@.subrange(a as int, k as int),
        decreases b - k,
    {
        out.push(t[k]);
        k += 1;
        assert(out@ =~= old(out)@ + t@.subrange(a as int, k as int));
    }
}

/// The text with each given piece's gap escaped, its lead kept and its token
/// turned into an anchor, then `tail` escaped. With no piece this is exactly the
/// plain escape of `tail`.
pub fn compose(pieces: &Vec<LinkPiece>, tail: &str) -> (r: String)
    ensures
        r@ == linked(piece_views(pieces@), tail@),
        pieces@.len() == 0 ==> r@ == encode(tail@, false),
{
    let ghost ps = piece_views(pieces@);
    let mut out: Vec<char> = Vec::new();
    let mut k: usize = 0;
    assert(ps.skip(0) =~= ps);
    while k < pieces.len()
        invariant
            0 <= k <= pieces@.len(),
            ps == piece_views(pieces@),
            out@ + linked(ps.skip(k as int), tail@) == linked(ps, tail@),
        decreases pieces@.len() - k,
    {
        let p = &pieces[k];
        assert(ps.skip(k as int).skip(1) =~= ps.skip(k + 1));
        assert(ps.skip(k as int)[0] == p.view());
        let gap = chars_of(p.gap.as_str());
        push_encode(&mut out, gap.as_slice(), false);
        let lead = chars_of(p.lead.as_str());
        push_lit(&mut out, lead.as_slice());
        let token = chars_of(p.token.as_str());
        push_lit(&mut out, &['<', 'a', ' ', 't', 'a', 'r', 'g', 'e', 't', '=', '"', '_', 'b', 'l', 'a', 'n', 'k', '"', ' ', 'h', 'r', 'e', 'f', '=', '"']);
        push_href(&mut out, p.kind, token.as_slice());
        push_lit(&mut out, &['"', '>']);
        push_encode(&mut out, token.as_slice(), true);
        push_lit(&mut out, &['<', '/', 'a', '>']);
        k += 1;
        assert(out@ + linked(ps.skip(k as int), tail@) =~= linked(ps, tail@));
    }
    let t = chars_of(tail);
    push_encode(&mut out, t.as_slice(), false);
    string_of(out.as_slice())
}

impl Autolinker {
    /// Compiles the link pattern; this always succeeds.
    pub fn new() -> (r: Option<Autolinker>)
        ensures
            r is Some,
    {
        match compile(LINK_PATTERN) {
            Ok(re) => Some(Autolinker { re }),
            Err(_) => None,
        }
    }

    /// Relies on `regex::Regex::captures_iter` (successive non-overlapping
    /// matches, left to right) and on `Captures::get` and `Match::start` / `end`
    /// to cut the text around them. `self.re` is always `LINK_PATTERN` compiled:
    /// `new` is the only place that sets it, so `link_scan` names what that
    /// pattern finds. Every alternative of the pattern needs at least two
    /// characters, so no token is empty.
    #[verifier::external_body]
    fn scan(&self, s: &str) -> (r: (Vec<(String, String, String)>, String))
        ensures
            triple_views(r.0@) == link_scan(s@),
            s@ == joined(link_scan(s@)) + r.1@,
            forall|k: int| 0 <= k < r.0@.len() ==> #[trigger] r.0@[k].2@.len() > 0,
    {
        let (mut found, mut end) = (Vec::new(), 0);
        for c in self.re.captures_iter(s) {
            let (m, lead, t) = (c.get(0).unwrap(), c.get(1).unwrap(), c.get(2).unwrap());
            found.push((s[end..m.start()].to_string(), lead.as_str().to_string(), t.as_str().to_string()));
            end = m.end();
        }
        (found, s[end..].to_string())
    }

    /// Escapes `s` (without quotes) and turns each recognized token into an
    /// anchor, keeping the whitespace before it.
    pub fn escape_and_link(&self, s: &str) -> (r: String)
        ensures
            r@ == linked(classified(link_scan(s@)), rest_after(s@, link_scan(s@))),
            link_scan(s@).len() == 0 ==> r@ == encode(s@, false),
            s@.len() == 0 ==> r@.len() == 0,
    {
        let (found, tail) = self.scan(s);
        proof {
            let ms = link_scan(s@);
            if ms.len() > 0 {
                assert(found@[0].2@.len() > 0);
                assert(triple_views(found@)[0] == ms[0]);
                assert(joined(ms).len() >= ms[0].2.len());
            }
        }
        assert(tail@ =~= rest_after(s@, link_scan(s@)));
        proof {
            if link_scan(s@).len() == 0 {
                assert(s@ =~= tail@);
            }
        }
        let pieces = classify_all(&found);
        compose(&pieces, tail.as_str())
    }
}

pub open spec fn triple_views(v: Seq<(String, String, String)>) -> Seq<(Seq<char>, Seq<char>, Seq<char>)> {
    v.map_values(|m: (String, String, String)| (m.0@, m.1@, m.2@))
}

/// The shape of a matched token.
pub fn classify_token(t: &str) -> (r: LinkKind)
    ensures
        r == classify(t@),
{
    let cs = chars_of(t);
    if cs.len() == 0 || cs[0] != '@' {
        return LinkKind::Url;
    }
    let mut at = false;
    let mut dot = false;
    let mut i: usize = 1;
    while i < cs.len()
        invariant
            1 <= i <= cs@.len(),
            cs@ == t@,
            at <==> exists|k: int| 1 <= k < i && #[trigger] cs@[k] == '@',
            dot <==> exists|k: int| 1 <= k < i && #[trigger] cs@[k] == '.',
        decreases cs@.len() - i,
    {
        if cs[i] == '@' {
            at = true;
        }
        if cs[i] == '.' {
            dot = true;
        }
        i += 1;
    }
    if at {
        LinkKind::Misskey
    } else if dot {
        LinkKind::Bluesky
    } else {
        LinkKind::Twitter
    }
}

fn classify_all(found: &Vec<(String, String, String)>) -> (r: Vec<LinkPiece>)
    ensures
        piece_views(r@) == classified(triple_views(found@)),
{
    let ghost orig = triple_views(found@);
    let mut r: Vec<LinkPiece> = Vec::new();
    let mut k: usize = 0;
    while k < found.len()
        invariant
            k <= found@.len(),
            orig == triple_views(found@),
            piece_views(r@) == classified(orig).take(k as int),
        decreases found@.len() - k,
    {
        let m = &found[k];
        assert(orig[k as int] == (m.0@, m.1@, m.2@));
        let kind = classify_token(m.2.as_str());
        let ghost before = piece_views(r@);
        r.push(LinkPiece { gap: m.0.clone(), lead: m.1.clone(), kind, token: m.2.clone() });
        assert(piece_views(r@) =~= before.push(classified(orig)[k as int]));
        k += 1;
        assert(piece_views(r@) =~= classified(orig).take(k as int));
    }
    assert(classified(orig).take(k as int) =~= classified(orig));
    r
}

} // verus!
