use vstd::prelude::*;

verus! {

/// A text that is either the caller's own, untouched, or a newly built one.
#[derive(Debug)]
pub enum Text<'a> {
    Borrowed(&'a str),
    Owned(String),
}

impl<'a> Text<'a> {
    pub open spec fn view(&self) -> Seq<char> {
        match self {
            Text::Borrowed(s) => s@,
            Text::Owned(s) => s@,
        }
    }

    pub open spec fn is_borrowed(&self) -> bool {
        self is Borrowed
    }

    pub fn into_string(self) -> (r: String)
        ensures
            r@ == self.view(),
    {
        match self {
            Text::Borrowed(s) => s.to_string(),
            Text::Owned(s) => s,
        }
    }
}

/// The characters of `s`, in order.
pub(crate) fn chars_of(s: &str) -> (r: Vec<char>)
    ensures
        r@ == s@,
{
    let mut r: Vec<char> = Vec::new();
    proof {
        broadcast use vstd::string::axiom_spec_iter;
    }
    for c in it: s.chars()
        invariant
            r@.len() == it.index(),
            forall|j: int| 0 <= j < r@.len() ==> r@[j] == it.seq()[j],
    {
        r.push(c);
    }
    assert(r@ =~= s@);
    r
}

/// Relies on `String::from_iter` over characters: a string of the characters of
/// `v`, in order.
#[verifier::external_body]
pub(crate) fn string_of(v: &[char]) -> (r: String)
    ensures
        r@ == v@,
{
    String::from_iter(v.iter())
}

pub open spec fn lt() -> Seq<char> { seq!['&', 'l', 't', ';'] }
pub open spec fn gt() -> Seq<char> { seq!['&', 'g', 't', ';'] }
pub open spec fn amp() -> Seq<char> { seq!['&', 'a', 'm', 'p', ';'] }
pub open spec fn quot() -> Seq<char> { seq!['&', 'q', 'u', 'o', 't', ';'] }
pub open spec fn apos() -> Seq<char> { seq!['&', 'a', 'p', 'o', 's', ';'] }
pub open spec fn apos_num() -> Seq<char> { seq!['&', '#', '3', '9', ';'] }
pub open spec fn nbsp() -> Seq<char> { seq!['&', 'n', 'b', 's', 'p', ';'] }
pub open spec fn br_tag() -> Seq<char> { seq!['<', 'b', 'r', '>'] }

/// The characters that `encode` replaces.
pub open spec fn is_special(c: char, escape_quotes: bool) -> bool {
    c == '<' || c == '>' || c == '&' || (escape_quotes && (c == '"' || c == '\''))
}

/// What one character becomes under `encode`.
pub open spec fn encode_char(c: char, escape_quotes: bool) -> Seq<char> {
    if c == '<' {
        lt()
    } else if c == '>' {
        gt()
    } else if c == '&' {
        amp()
    } else if escape_quotes && c == '"' {
        quot()
    } else if escape_quotes && c == '\'' {
        apos()
    } else {
        seq![c]
    }
}

/// Each character replaced by its entity, left to right.
pub open spec fn encode(s: Seq<char>, escape_quotes: bool) -> Seq<char>
    decreases s.len(),
{
    if s.len() == 0 {
        Seq::empty()
    } else {
        encode_char(s[0], escape_quotes) + encode(s.skip(1), escape_quotes)
    }
}

pub open spec fn starts_with(s: Seq<char>, p: Seq<char>) -> bool {
    p.len() <= s.len() && s.take(p.len() as int) == p
}

/// The entity at the start of `s`, first in table order, with what it stands for.
pub open spec fn entity_at(s: Seq<char>) -> Option<(char, nat)> {
    if starts_with(s, lt()) {
        Some(('<', 4))
    } else if starts_with(s, gt()) {
        Some(('>', 4))
    } else if starts_with(s, amp()) {
        Some(('&', 5))
    } else if starts_with(s, quot()) {
        Some(('"', 6))
    } else if starts_with(s, apos()) {
        Some(('\'', 6))
    } else if starts_with(s, apos_num()) {
        Some(('\'', 5))
    } else if starts_with(s, nbsp()) {
        Some((' ', 6))
    } else {
        None
    }
}

/// Known entities replaced by their character; any other `&` kept as it is.
pub open spec fn decode(s: Seq<char>) -> Seq<char>
    decreases s.len(),
{
    if s.len() == 0 {
        Seq::empty()
    } else {
        match entity_at(s) {
            Some((c, k)) => seq![c] + decode(s.skip(k as int)),
            None => seq![s[0]] + decode(s.skip(1)),
        }
    }
}

/// `\r\n`, a lone `\r` and a lone `\n` each become one `<br>`.
pub open spec fn line_breaks(s: Seq<char>) -> Seq<char>
    decreases s.len(),
{
    if s.len() == 0 {
        Seq::empty()
    } else if s[0] == '\r' {
        if s.len() > 1 && s[1] == '\n' {
            br_tag() + line_breaks(s.skip(2))
        } else {
            br_tag() + line_breaks(s.skip(1))
        }
    } else if s[0] == '\n' {
        br_tag() + line_breaks(s.skip(1))
    } else {
        seq![s[0]] + line_breaks(s.skip(1))
    }
}

/// `s` without any `\n` or `\r`.
pub open spec fn strip_breaks(s: Seq<char>) -> Seq<char>
    decreases s.len(),
{
    if s.len() == 0 {
        Seq::empty()
    } else if s[0] == '\n' || s[0] == '\r' {
        strip_breaks(s.skip(1))
    } else {
        seq![s[0]] + strip_breaks(s.skip(1))
    }
}

pub open spec fn has_special(s: Seq<char>, escape_quotes: bool) -> bool {
    exists|i: int| 0 <= i < s.len() && is_special(#[trigger] s[i], escape_quotes)
}

pub(crate) fn push_lit(out: &mut Vec<char>, lit: &[char])
    ensures
        final(out)@ == old(out)@ + lit@,
{
    let mut i: usize = 0;
    while i < lit.len()
        invariant
            0 <= i <= lit@.len(),
            out@ == old(out)@ + lit@.take(i as int),
        decreases lit@.len() - i,
    {
        out.push(lit[i]);
        i += 1;
        assert(out@ =~= old(out)@ + lit@.take(i as int));
    }
    assert(lit@.take(lit@.len() as int) =~= lit@);
}

/// Appends `encode_char(c, escape_quotes)` to `out`.
pub(crate) fn push_encoded(out: &mut Vec<char>, c: char, escape_quotes: bool)
    ensures
        final(out)@ == old(out)@ + encode_char(c, escape_quotes),
{
    if c == '<' {
        push_lit(out, &['&', 'l', 't', ';']);
    } else if c == '>' {
        push_lit(out, &['&', 'g', 't', ';']);
    } else if c == '&' {
        push_lit(out, &['&', 'a', 'm', 'p', ';']);
    } else if escape_quotes && c == '"' {
        push_lit(out, &['&', 'q', 'u', 'o', 't', ';']);
    } else if escape_quotes && c == '\'' {
        push_lit(out, &['&', 'a', 'p', 'o', 's', ';']);
    } else {
        out.push(c);
    }
    assert(final(out)@ =~= old(out)@ + encode_char(c, escape_quotes));
}

/// Appends `encode(s, escape_quotes)` to `out`.
pub(crate) fn push_encode(out: &mut Vec<char>, s: &[char], escape_quotes: bool)
    ensures
        final(out)@ == old(out)@ + encode(s@, escape_quotes),
{
    let mut i: usize = 0;
    assert(s@.skip(0) =~= s@);
    while i < s.len()
        invariant
            0 <= i <= s@.len(),
            out@ + encode(s@.skip(i as int), escape_quotes) == old(out)@ + encode(s@, escape_quotes),
        decreases s@.len() - i,
    {
        assert(s@.skip(i as int).skip(1) =~= s@.skip(i + 1));
        push_encoded(out, s[i], escape_quotes);
        i += 1;
        assert(out@ + encode(s@.skip(i as int), escape_quotes) =~= old(out)@ + encode(s@, escape_quotes));
    }
    assert(s@.skip(i as int) =~= Seq::<char>::empty());
    assert(out@ =~= old(out)@ + encode(s@, escape_quotes));
}

fn starts_at(s: &[char], i: usize, lit: &[char]) -> (r: bool)
    requires
        i <= s@.len(),
    ensures
        r == starts_with(s@.skip(i as int), lit@),
{
    if lit.len() > s.len() - i {
        return false;
    }
    let mut j: usize = 0;
    while j < lit.len()
        invariant
            0 <= j <= lit@.len(),
            i <= s@.len(),
            i + lit@.len() <= s.len(),
            forall|k: int| 0 <= k < j ==> s@[i + k] == lit@[k],
        decreases lit@.len() - j,
    {
        if s[i + j] != lit[j] {
            assert(s@.skip(i as int).take(lit@.len() as int)[j as int] != lit@[j as int]);
            return false;
        }
        j += 1;
    }
    assert(s@.skip(i as int).take(lit@.len() as int) =~= lit@);
    true
}

fn entity_at_exec(s: &[char], i: usize) -> (r: Option<(char, usize)>)
    requires
        i <= s@.len(),
    ensures
        match entity_at(s@.skip(i as int)) {
            Some((c, k)) => r == Some((c, k as usize)),
            None => r is None,
        },
{
    if starts_at(s, i, &['&', 'l', 't', ';']) {
        assert(lt() =~= seq!['&', 'l', 't', ';']);
        Some(('<', 4))
    } else if starts_at(s, i, &['&', 'g', 't', ';']) {
        Some(('>', 4))
    } else if starts_at(s, i, &['&', 'a', 'm', 'p', ';']) {
        Some(('&', 5))
    } else if starts_at(s, i, &['&', 'q', 'u', 'o', 't', ';']) {
        Some(('"', 6))
    } else if starts_at(s, i, &['&', 'a', 'p', 'o', 's', ';']) {
        Some(('\'', 6))
    } else if starts_at(s, i, &['&', '#', '3', '9', ';']) {
        Some(('\'', 5))
    } else if starts_at(s, i, &['&', 'n', 'b', 's', 'p', ';']) {
        Some((' ', 6))
    } else {
        None
    }
}

/// Text with no character that `encode` replaces is its own encoding.
pub proof fn lemma_encode_plain(s: Seq<char>, escape_quotes: bool)
    requires
        !has_special(s, escape_quotes),
    ensures
        encode(s, escape_quotes) == s,
    decreases s.len(),
{
    if s.len() > 0 {
        assert(!is_special(s[0], escape_quotes));
        assert forall|i: int| 0 <= i < s.skip(1).len() implies !is_special(#[trigger] s.skip(1)[i], escape_quotes) by {
            assert(s.skip(1)[i] == s[i + 1]);
        }
        lemma_encode_plain(s.skip(1), escape_quotes);
        assert(encode(s, escape_quotes) =~= s);
    }
}

/// For every text with none of `< > & " '`, encoding with quotes is the identity.
pub proof fn lemma_encode_identity(t: Seq<char>)
    requires
        forall|i: int| 0 <= i < t.len() ==> !is_special(#[trigger] t[i], true),
    ensures
        encode(t, true) == t,
{
    lemma_encode_plain(t, true);
}

/// Text with no `&` is its own decoding.
pub proof fn lemma_decode_plain(s: Seq<char>)
    requires
        forall|i: int| 0 <= i < s.len() ==> #[trigger] s[i] != '&',
    ensures
        decode(s) == s,
    decreases s.len(),
{
    if s.len() > 0 {
        assert(s[0] != '&');
        assert(entity_at(s) is None) by {
            if s.len() >= 4 { assert(s.take(4)[0] == s[0]); }
            if s.len() >= 5 { assert(s.take(5)[0] == s[0]); }
            if s.len() >= 6 { assert(s.take(6)[0] == s[0]); }
        }
        assert forall|i: int| 0 <= i < s.skip(1).len() implies #[trigger] s.skip(1)[i] != '&' by {
            assert(s.skip(1)[i] == s[i + 1]);
        }
        lemma_decode_plain(s.skip(1));
        assert(decode(s) =~= s);
    }
}

/// Decoding the quote-escaping encoding of any text gives the text back.
pub proof fn lemma_decode_encode(t: Seq<char>)
    ensures
        decode(encode(t, true)) == t,
    decreases t.len(),
{
    if t.len() > 0 {
        let c = t[0];
        let e = encode_char(c, true);
        let rest = encode(t.skip(1), true);
        let s = e + rest;
        assert(encode(t, true) == s);
        lemma_decode_encode(t.skip(1));
        assert(s.skip(e.len() as int) =~= rest);
        if c == '<' {
            assert(s.take(4) =~= lt());
        } else if c == '>' {
            assert(s.take(4) =~= gt());
            assert(s.take(4) != lt()) by { assert(s.take(4)[1] != lt()[1]); }
        } else if c == '&' {
            assert(s.take(5) =~= amp());
            assert(s.take(4) != lt()) by { assert(s.take(4)[1] != lt()[1]); }
            assert(s.take(4) != gt()) by { assert(s.take(4)[1] != gt()[1]); }
        } else if c == '"' {
            assert(s.take(6) =~= quot());
            assert(s.take(4) != lt()) by { assert(s.take(4)[1] != lt()[1]); }
            assert(s.take(4) != gt()) by { assert(s.take(4)[1] != gt()[1]); }
            assert(s.take(5) != amp()) by { assert(s.take(5)[1] != amp()[1]); }
        } else if c == '\'' {
            assert(s.take(6) =~= apos());
            assert(s.take(4) != lt()) by { assert(s.take(4)[1] != lt()[1]); }
            assert(s.take(4) != gt()) by { assert(s.take(4)[1] != gt()[1]); }
            assert(s.take(5) != amp()) by { assert(s.take(5)[2] != amp()[2]); }
            assert(s.take(6) != quot()) by { assert(s.take(6)[1] != quot()[1]); }
        } else {
            assert(s[0] == c);
            assert(entity_at(s) is None) by {
                if s.len() >= 4 { assert(s.take(4)[0] == s[0]); }
                if s.len() >= 5 { assert(s.take(5)[0] == s[0]); }
                if s.len() >= 6 { assert(s.take(6)[0] == s[0]); }
            }
        }
        assert(decode(s) =~= t);
    }
}

/// Replaces `<`, `>`, `&`, and also `"` and `'` where `escape_quotes` holds, by
/// their entities. Hands `s` back untouched exactly when nothing was replaced.
pub fn escape(s: &str, escape_quotes: bool) -> (r: Text<'_>)
    ensures
        r.view() == encode(s@, escape_quotes),
        r.is_borrowed() <==> !has_special(s@, escape_quotes),
        r.is_borrowed() ==> r == Text::Borrowed(s),
{
    let cs = chars_of(s);
    let mut i: usize = 0;
    while i < cs.len()
        invariant
            0 <= i <= cs@.len(),
            cs@ == s@,
            forall|k: int| 0 <= k < i ==> !is_special(#[trigger] cs@[k], escape_quotes),
        decreases cs@.len() - i,
    {
        let c = cs[i];
        if c == '<' || c == '>' || c == '&' || (escape_quotes && (c == '"' || c == '\'')) {
            let mut out: Vec<char> = Vec::new();
            push_encode(&mut out, cs.as_slice(), escape_quotes);
            assert(out@ =~= encode(s@, escape_quotes));
            return Text::Owned(string_of(out.as_slice()));
        }
        i += 1;
    }
    proof {
        lemma_encode_plain(s@, escape_quotes);
    }
    Text::Borrowed(s)
}

/// Replaces the entities `&lt; &gt; &amp; &quot; &apos; &#39; &nbsp;` by their
/// characters. Hands `s` back untouched when it holds no `&`.
pub fn unescape(s: &str) -> (r: Text<'_>)
    ensures
        r.view() == decode(s@),
        (forall|i: int| 0 <= i < s@.len() ==> #[trigger] s@[i] != '&') ==> r == Text::Borrowed(s),
{
    let cs = chars_of(s);
    let mut any = false;
    let mut j: usize = 0;
    while j < cs.len()
        invariant
            0 <= j <= cs@.len(),
            cs@ == s@,
            !any <==> forall|k: int| 0 <= k < j ==> #[trigger] cs@[k] != '&',
        decreases cs@.len() - j,
    {
        if cs[j] == '&' {
            any = true;
        }
        j += 1;
    }
    if !any {
        proof {
            lemma_decode_plain(s@);
        }
        return Text::Borrowed(s);
    }
    let mut out: Vec<char> = Vec::new();
    let mut i: usize = 0;
    assert(s@.skip(0) =~= s@);
    while i < cs.len()
        invariant
            0 <= i <= cs@.len(),
            cs@ == s@,
            out@ + decode(s@.skip(i as int)) == decode(s@),
        decreases cs@.len() - i,
    {
        let ghost rest = s@.skip(i as int);
        if cs[i] == '&' {
            match entity_at_exec(cs.as_slice(), i) {
                Some((c, k)) => {
                    out.push(c);
                    assert(rest.skip(k as int) =~= s@.skip(i + k));
                    i += k;
                },
                None => {
                    out.push('&');
                    assert(rest.skip(1) =~= s@.skip(i + 1));
                    i += 1;
                },
            }
        } else {
            assert(entity_at(rest) is None) by {
                if rest.len() >= 4 { assert(rest.take(4)[0] == rest[0]); }
                if rest.len() >= 5 { assert(rest.take(5)[0] == rest[0]); }
                if rest.len() >= 6 { assert(rest.take(6)[0] == rest[0]); }
            }
            out.push(cs[i]);
            assert(rest.skip(1) =~= s@.skip(i + 1));
            i += 1;
        }
        assert(out@ + decode(s@.skip(i as int)) =~= decode(s@));
    }
    assert(s@.skip(i as int) =~= Seq::<char>::empty());
    assert(out@ =~= decode(s@));
    Text::Owned(string_of(out.as_slice()))
}

/// Turns each line break (`\r\n`, `\r` or `\n`) into `<br>`.
pub fn br(s: &str) -> (r: String)
    ensures
        r@ == line_breaks(s@),
{
    let cs = chars_of(s);
    let mut out: Vec<char> = Vec::new();
    let mut i: usize = 0;
    assert(s@.skip(0) =~= s@);
    while i < cs.len()
        invariant
            0 <= i <= cs@.len(),
            cs@ == s@,
            out@ + line_breaks(s@.skip(i as int)) == line_breaks(s@),
        decreases cs@.len() - i,
    {
        let ghost rest = s@.skip(i as int);
        let c = cs[i];
        if c == '\r' {
            push_lit(&mut out, &['<', 'b', 'r', '>']);
            if i + 1 < cs.len() && cs[i + 1] == '\n' {
                assert(rest.skip(2) =~= s@.skip(i + 2));
                i += 2;
            } else {
                assert(rest.skip(1) =~= s@.skip(i + 1));
                i += 1;
            }
        } else if c == '\n' {
            push_lit(&mut out, &['<', 'b', 'r', '>']);
            assert(rest.skip(1) =~= s@.skip(i + 1));
            i += 1;
        } else {
            out.push(c);
            assert(rest.skip(1) =~= s@.skip(i + 1));
            i += 1;
        }
        assert(out@ + line_breaks(s@.skip(i as int)) =~= line_breaks(s@));
    }
    assert(s@.skip(i as int) =~= Seq::<char>::empty());
    assert(out@ =~= line_breaks(s@));
    string_of(out.as_slice())
}

/// Removes every `\n` and `\r`.
pub fn rm_br(s: &str) -> (r: String)
    ensures
        r@ == strip_breaks(s@),
{
    let cs = chars_of(s);
    let mut out: Vec<char> = Vec::new();
    let mut i: usize = 0;
    assert(s@.skip(0) =~= s@);
    while i < cs.len()
        invariant
            0 <= i <= cs@.len(),
            cs@ == s@,
            out@ + strip_breaks(s@.skip(i as int)) == strip_breaks(s@),
        decreases cs@.len() - i,
    {
        let ghost rest = s@.skip(i as int);
        let c = cs[i];
        if c != '\n' && c != '\r' {
            out.push(c);
        }
        assert(rest.skip(1) =~= s@.skip(i + 1));
        i += 1;
        assert(out@ + strip_breaks(s@.skip(i as int)) =~= strip_breaks(s@));
    }
    assert(s@.skip(i as int) =~= Seq::<char>::empty());
    assert(out@ =~= strip_breaks(s@));
    string_of(out.as_slice())
}

/// Encoded text holds no `<` or `>`, and, where quotes are escaped, no `"` or `'`.
pub proof fn lemma_encode_safe(s: Seq<char>, escape_quotes: bool)
    ensures
        forall|i: int|
            0 <= i < encode(s, escape_quotes).len() ==> {
                let c = #[trigger] encode(s, escape_quotes)[i];
                &&& c != '<'
                &&& c != '>'
                &&& escape_quotes ==> c != '"' && c != '\''
            },
    decreases s.len(),
{
    if s.len() > 0 {
        lemma_encode_safe(s.skip(1), escape_quotes);
        let e = encode_char(s[0], escape_quotes);
        let rest = encode(s.skip(1), escape_quotes);
        assert forall|i: int| 0 <= i < (e + rest).len() implies {
            let c = #[trigger] (e + rest)[i];
            &&& c != '<'
            &&& c != '>'
            &&& escape_quotes ==> c != '"' && c != '\''
        } by {
            if i >= e.len() {
                assert((e + rest)[i] == rest[i - e.len()]);
            }
        }
    }
}

} // verus!
