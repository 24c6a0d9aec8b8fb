use vstd::prelude::*;

use crate::codec::{chars_of, push_lit, string_of};

verus! {

/// What `char::is_alphanumeric` says of a character.
pub uninterp spec fn alnum(c: char) -> bool;

/// Relies on `char::is_alphanumeric`, whose answer depends on the character alone.
#[verifier::external_body]
fn is_alnum(c: char) -> (r: bool)
    ensures
        r == alnum(c),
        ('a' <= c <= 'z' || 'A' <= c <= 'Z' || '0' <= c <= '9') ==> r,
{
    c.is_alphanumeric()
}

pub open spec fn name_char(c: char) -> bool {
    alnum(c) || c == '-' || c == '_'
}

/// A possible tag name: alphanumerics, `-` and `_` only (the empty one too).
pub open spec fn is_name(s: Seq<char>) -> bool {
    forall|i: int| 0 <= i < s.len() ==> name_char(#[trigger] s[i])
}

/// The characters of `s` from `a` up to `b`, or nothing where that is no range of `s`.
pub open spec fn slice(s: Seq<char>, a: int, b: int) -> Seq<char> {
    if 0 <= a <= b <= s.len() {
        s.subrange(a, b)
    } else {
        Seq::empty()
    }
}

/// The first `/` at or after `i`, or -1.
pub open spec fn first_slash(s: Seq<char>, i: int) -> int
    decreases s.len() - i,
{
    if i < 0 || i >= s.len() {
        -1
    } else if s[i] == '/' {
        i
    } else {
        first_slash(s, i + 1)
    }
}

/// The last `/` in `[lo, hi)`, or -1.
pub open spec fn last_slash(s: Seq<char>, lo: int, hi: int) -> int
    decreases hi - lo,
{
    if hi <= lo {
        -1
    } else if s[hi - 1] == '/' {
        hi - 1
    } else {
        last_slash(s, lo, hi - 1)
    }
}

/// A character that a backslash escapes.
pub open spec fn escapable(c: char) -> bool {
    c == '[' || c == ']' || c == '|' || c == '/' || c == '\\'
}

/// Positions of the `|` that stand outside any nested bracket, scanning from `i`
/// with `nest` brackets open; with a nonzero `limit`, stops once it has that many.
pub open spec fn pipes(s: Seq<char>, i: int, nest: nat, acc: Seq<int>, limit: nat) -> Seq<int>
    decreases s.len() - i,
{
    if i < 0 || i >= s.len() {
        acc
    } else if s[i] == '[' {
        pipes(s, i + 1, nest + 1, acc, limit)
    } else if s[i] == ']' && nest > 0 {
        pipes(s, i + 1, (nest - 1) as nat, acc, limit)
    } else if s[i] == '|' && nest == 0 {
        if limit != 0 && limit <= acc.len() + 1 {
            acc.push(i)
        } else {
            pipes(s, i + 1, nest, acc.push(i), limit)
        }
    } else if s[i] == '\\' && i + 1 < s.len() && (s[i + 1] == '[' || s[i + 1] == ']'
        || s[i + 1] == '|' || s[i + 1] == '\\') {
        pipes(s, i + 2, nest, acc, limit)
    } else {
        pipes(s, i + 1, nest, acc, limit)
    }
}

/// The parameters of `s`: the pieces between its top-level pipes.
pub open spec fn params(s: Seq<char>, limit: nat) -> Seq<Seq<char>> {
    let cuts = pipes(s, 0, 0, Seq::empty(), limit);
    Seq::new(
        cuts.len() + 1,
        |k: int|
            slice(
                s,
                if k == 0 { 0 } else { cuts[k - 1] + 1 },
                if k < cuts.len() { cuts[k] } else { s.len() as int },
            ),
    )
}

pub open spec fn is_format_tag(t: Seq<char>) -> bool {
    t == seq!['b'] || t == seq!['i'] || t == seq!['u'] || t == seq!['s']
        || t == seq!['l', 'a', 'r', 'g', 'e'] || t == seq!['s', 'm', 'a', 'l', 'l']
        || t == seq!['r', 'a', 'i', 'n', 'b', 'o', 'w']
}

pub open spec fn ruby_tag() -> Seq<char> {
    seq!['r', 'u', 'b', 'y']
}

pub open spec fn image_tag() -> Seq<char> {
    seq!['i', 'm', 'a', 'g', 'e']
}

/// A base text with its reading.
pub open spec fn ruby_pair(base: Seq<char>, reading: Seq<char>) -> Seq<char> {
    seq!['<', 'r', 'u', 'b', 'y', '>'] + base + seq!['<', 'r', 'p', '>', '(', '<', '/', 'r', 'p', '>']
        + seq!['<', 'r', 't', '>'] + reading + seq!['<', '/', 'r', 't', '>']
        + seq!['<', 'r', 'p', '>', ')', '<', '/', 'r', 'p', '>', '<', '/', 'r', 'u', 'b', 'y', '>']
}

pub open spec fn emphasis(body: Seq<char>) -> Seq<char> {
    seq!['<', 'e', 'm', '>'] + body + seq!['<', '/', 'e', 'm', '>']
}

/// The index that the anonymous tag met at position `pos` of the choices uses.
pub open spec fn pick_at(picks: Seq<usize>, pos: nat) -> nat {
    if pos < picks.len() {
        picks[pos as int] as nat
    } else {
        0
    }
}

/// The position after one choice: each index is used once, and once `picks`
/// runs out every further choice takes index 0.
pub open spec fn next_pos(picks: Seq<usize>, pos: nat) -> nat {
    if pos < picks.len() {
        pos + 1
    } else {
        pos
    }
}

/// What a closed outermost tag named `tag` with the raw content `content`
/// becomes, with the position in `picks` after the choices made inside it. An
/// anonymous tag keeps the parameter that the next index selects.
pub open spec fn apply_tag(tag: Seq<char>, content: Seq<char>, picks: Seq<usize>, pos: nat) -> (Seq<char>, nat)
    decreases content.len(), 3int, 0int,
{
    if is_format_tag(tag) {
        let (body, p1) = render(content, picks, pos);
        (seq!['<'] + tag + seq!['>'] + body + seq!['<', '/'] + tag + seq!['>'], p1)
    } else if tag == ruby_tag() {
        let ps = params(content, 1);
        if ps.len() == 2 {
            let (base, p1) = render(ps[0], picks, pos);
            let (reading, p2) = render(ps[1], picks, p1);
            (ruby_pair(base, reading), p2)
        } else {
            let (body, p1) = render(content, picks, pos);
            (emphasis(body), p1)
        }
    } else if tag == image_tag() {
        (seq!['<', 'i', 'm', 'g', ' ', 's', 'r', 'c', '=', '"'] + content + seq!['"', '>'], pos)
    } else if tag.len() == 0 {
        let ps = params(content, 0);
        render(ps[(pick_at(picks, pos) % ps.len()) as int], picks, next_pos(picks, pos))
    } else {
        let (body, p1) = render(content, picks, pos);
        (seq!['['] + tag + seq!['/'] + body + seq!['/'] + tag + seq![']'], p1)
    }
}

/// The markup of `raw` rendered, with its anonymous tags choosing by `picks`
/// from position `pos` on; also the position after them.
pub open spec fn render(raw: Seq<char>, picks: Seq<usize>, pos: nat) -> (Seq<char>, nat)
    decreases raw.len(), 2int, 0int,
{
    scan(raw, picks, 0, 0, Seq::empty(), Seq::empty(), pos)
}

/// The frame that an opening bracket at `i` pushes.
pub open spec fn open_frame(raw: Seq<char>, i: int) -> (Seq<char>, int) {
    let q = first_slash(raw, i + 1);
    if q >= 0 && is_name(slice(raw, i + 1, q)) {
        (slice(raw, i + 1, q), q + 1)
    } else {
        (Seq::empty(), i + 1)
    }
}

/// Where the content before a closing bracket at `i` ends, and the name it closes.
pub open spec fn close_mark(raw: Seq<char>, end: int, i: int) -> (int, Seq<char>) {
    let q = last_slash(raw, end, i);
    if q >= 0 && is_name(slice(raw, q + 1, i)) {
        (q, slice(raw, q + 1, i))
    } else {
        (i, Seq::empty())
    }
}

/// The renderer from position `i` on, with `out` written so far, literal text
/// pending from `end`, and the open frames `stack` (name, content start). The
/// pending text of an outermost frame starts at its own bracket, so that a frame
/// that never closes stays in the output as the text it was.
pub open spec fn scan(
    raw: Seq<char>,
    picks: Seq<usize>,
    i: int,
    end: int,
    stack: Seq<(Seq<char>, int)>,
    out: Seq<char>,
    pos: nat,
) -> (Seq<char>, nat)
    decreases raw.len(), 1int, raw.len() - i,
{
    if i < 0 || i >= raw.len() {
        (out + slice(raw, end, raw.len() as int), pos)
    } else if raw[i] == '[' {
        let out2 = if stack.len() == 0 { out + slice(raw, end, i) } else { out };
        let end2 = if stack.len() == 0 { i } else { end };
        scan(raw, picks, i + 1, end2, stack.push(open_frame(raw, i)), out2, pos)
    } else if raw[i] == ']' && stack.len() > 0 {
        let (p0, tag) = close_mark(raw, end, i);
        let p = if p0 <= i { p0 } else { i };
        let top = stack.last();
        if top.0 == tag {
            let rest = stack.drop_last();
            if rest.len() == 0 {
                let (piece, p2) = apply_tag(tag, slice(raw, top.1, p), picks, pos);
                scan(raw, picks, i + 1, i + 1, rest, out + piece, p2)
            } else {
                scan(raw, picks, i + 1, end, rest, out, pos)
            }
        } else {
            scan(raw, picks, i + 1, end, stack, out, pos)
        }
    } else if raw[i] == '\\' && i + 1 < raw.len() && escapable(raw[i + 1]) {
        if stack.len() == 0 {
            scan(raw, picks, i + 2, i + 2, stack, out + slice(raw, end, i) + seq![raw[i + 1]], pos)
        } else {
            scan(raw, picks, i + 2, end, stack, out, pos)
        }
    } else {
        scan(raw, picks, i + 1, end, stack, out, pos)
    }
}

pub open spec fn frames(st: Seq<(Vec<char>, usize)>) -> Seq<(Seq<char>, int)> {
    st.map_values(|f: (Vec<char>, usize)| (f.0@, f.1 as int))
}

fn slice_vec(s: &Vec<char>, a: usize, b: usize) -> (r: Vec<char>)
    ensures
        r@ == slice(s@, a as int, b as int),
{
    let mut r: Vec<char> = Vec::new();
    if a <= b && b <= s.len() {
        let mut k: usize = a;
        while k < b
            invariant
                a <= k <= b <= s@.len(),
                r@ == s@.subrange(a as int, k as int),
            decreases b - k,
        {
            r.push(s[k]);
            k += 1;
            assert(r@ =~= s@.subrange(a as int, k as int));
        }
    } else {
        assert(r@ =~= slice(s@, a as int, b as int));
    }
    r
}

fn push_slice(out: &mut Vec<char>, s: &Vec<char>, a: usize, b: usize)
    requires
        a <= b <= s@.len(),
    ensures
        final(out)@ == old(out)@ + slice(s@, a as int, b as int),
{
    let mut k: usize = a;
    while k < b
        invariant
            a <= k <= b <= s@.len(),
            out@ == old(out)@ + s@.subrange(a as int, k as int),
        decreases b - k,
    {
        out.push(s[k]);
        k += 1;
        assert(out@ =~= old(out)@ + s@.subrange(a as int, k as int));
    }
}

fn append_all(out: &mut Vec<char>, v: &Vec<char>)
    ensures
        final(out)@ == old(out)@ + v@,
{
    push_lit(out, v.as_slice());
}

pub(crate) fn same_chars(a: &[char], b: &[char]) -> (r: bool)
    ensures
        r == (a@ == b@),
{
    if a.len() != b.len() {
        return false;
    }
    let mut k: usize = 0;
    while k < a.len()
        invariant
            0 <= k <= a@.len(),
            a@.len() == b@.len(),
            forall|j: int| 0 <= j < k ==> a@[j] == b@[j],
        decreases a@.len() - k,
    {
        if a[k] != b[k] {
            return false;
        }
        k += 1;
    }
    assert(a@ =~= b@);
    true
}

fn first_slash_exec(s: &Vec<char>, i: usize) -> (r: Option<usize>)
    ensures
        match r {
            Some(q) => q as int == first_slash(s@, i as int) && i <= q < s@.len(),
            None => first_slash(s@, i as int) == -1,
        },
{
    let mut k: usize = i;
    while k < s.len()
        invariant
            i <= k,
            first_slash(s@, k as int) == first_slash(s@, i as int),
            forall|j: int| i <= j < k ==> s@[j] != '/',
        decreases s@.len() - k,
    {
        if s[k] == '/' {
            return Some(k);
        }
        k += 1;
    }
    None
}

fn last_slash_exec(s: &Vec<char>, lo: usize, hi: usize) -> (r: Option<usize>)
    requires
        hi <= s@.len(),
    ensures
        match r {
            Some(q) => q as int == last_slash(s@, lo as int, hi as int) && lo <= q < hi,
            None => last_slash(s@, lo as int, hi as int) == -1,
        },
{
    let mut k: usize = hi;
    while k > lo
        invariant
            k <= hi <= s@.len(),
            last_slash(s@, lo as int, k as int) == last_slash(s@, lo as int, hi as int),
        decreases k,
    {
        if s[k - 1] == '/' {
            return Some(k - 1);
        }
        k -= 1;
    }
    None
}

fn is_name_exec(s: &Vec<char>, a: usize, b: usize) -> (r: bool)
    requires
        a <= b <= s@.len(),
    ensures
        r == is_name(slice(s@, a as int, b as int)),
{
    let ghost t = slice(s@, a as int, b as int);
    let mut k: usize = a;
    while k < b
        invariant
            a <= k <= b <= s@.len(),
            t == s@.subrange(a as int, b as int),
            forall|j: int| 0 <= j < k - a ==> name_char(#[trigger] t[j]),
        decreases b - k,
    {
        let c = s[k];
        if !(is_alnum(c) || c == '-' || c == '_') {
            assert(!name_char(t[k - a]));
            return false;
        }
        k += 1;
    }
    true
}

fn open_frame_exec(raw: &Vec<char>, i: usize) -> (r: (Vec<char>, usize))
    requires
        i < raw@.len(),
    ensures
        (r.0@, r.1 as int) == open_frame(raw@, i as int),
{
    let n = raw.len();
    assert(i < n);
    let start = i + 1;
    match first_slash_exec(raw, start) {
        Some(q) => {
            if is_name_exec(raw, start, q) {
                return (slice_vec(raw, start, q), q + 1);
            }
        },
        None => {},
    }
    let r: (Vec<char>, usize) = (Vec::new(), start);
    assert(r.0@ =~= Seq::<char>::empty());
    r
}

fn close_mark_exec(raw: &Vec<char>, end: usize, i: usize) -> (r: (usize, Vec<char>))
    requires
        i < raw@.len(),
    ensures
        (r.0 as int, r.1@) == close_mark(raw@, end as int, i as int),
        r.0 <= i,
{
    match last_slash_exec(raw, end, i) {
        Some(q) => {
            if is_name_exec(raw, q + 1, i) {
                return (q, slice_vec(raw, q + 1, i));
            }
        },
        None => {},
    }
    let r: (usize, Vec<char>) = (i, Vec::new());
    assert(r.1@ =~= Seq::<char>::empty());
    r
}

pub open spec fn ints(v: Seq<usize>) -> Seq<int> {
    v.map_values(|x: usize| x as int)
}

fn pipes_exec(s: &Vec<char>, limit: usize) -> (r: Vec<usize>)
    ensures
        ints(r@) == pipes(s@, 0, 0, Seq::empty(), limit as nat),
        forall|k: int| 0 <= k < r@.len() ==> #[trigger] r@[k] < s@.len(),
{
    let mut acc: Vec<usize> = Vec::new();
    let mut nest: usize = 0;
    let mut i: usize = 0;
    assert(ints(acc@) =~= Seq::<int>::empty());
    while i < s.len()
        invariant
            i <= s@.len(),
            nest <= i,
            forall|k: int| 0 <= k < acc@.len() ==> #[trigger] acc@[k] < s@.len(),
            pipes(s@, i as int, nest as nat, ints(acc@), limit as nat) == pipes(
                s@,
                0,
                0,
                Seq::empty(),
                limit as nat,
            ),
        decreases s@.len() - i,
    {
        let c = s[i];
        if c == '[' {
            nest += 1;
            i += 1;
        } else if c == ']' && nest > 0 {
            nest -= 1;
            i += 1;
        } else if c == '|' && nest == 0 {
            let ghost before = ints(acc@);
            acc.push(i);
            assert(ints(acc@) =~= before.push(i as int));
            if limit != 0 && limit <= acc.len() {
                return acc;
            }
            i += 1;
        } else if c == '\\' && i + 1 < s.len() && (s[i + 1] == '[' || s[i + 1] == ']' || s[i + 1]
            == '|' || s[i + 1] == '\\') {
            i += 2;
        } else {
            i += 1;
        }
    }
    acc
}

proof fn lemma_params_short(s: Seq<char>, limit: nat, k: int)
    requires
        0 <= k < params(s, limit).len(),
    ensures
        params(s, limit)[k].len() <= s.len(),
{
}

fn params_exec(s: &Vec<char>, limit: usize) -> (r: Vec<Vec<char>>)
    ensures
        r@.len() == params(s@, limit as nat).len(),
        forall|k: int| 0 <= k < r@.len() ==> #[trigger] r@[k]@ == params(s@, limit as nat)[k],
{
    let n = s.len();
    let cuts = pipes_exec(s, limit);
    let ghost ps = params(s@, limit as nat);
    let ghost cv = pipes(s@, 0, 0, Seq::empty(), limit as nat);
    let mut out: Vec<Vec<char>> = Vec::new();
    let mut k: usize = 0;
    assert(ps.len() == cv.len() + 1);
    while k < cuts.len()
        invariant
            0 <= k <= cuts@.len(),
            ints(cuts@) == cv,
            cv == pipes(s@, 0, 0, Seq::empty(), limit as nat),
            forall|j: int| 0 <= j < cuts@.len() ==> #[trigger] cuts@[j] < s@.len(),
            ps == params(s@, limit as nat),
            ps.len() == cv.len() + 1,
            n == s@.len(),
            out@.len() == k,
            forall|j: int| 0 <= j < k ==> #[trigger] out@[j]@ == ps[j],
        decreases cuts@.len() - k,
    {
        let a: usize = if k == 0 { 0 } else { cuts[k - 1] + 1 };
        let piece = slice_vec(s, a, cuts[k]);
        assert(cv[k as int] == cuts@[k as int] as int);
        assert(k > 0 ==> cv[k - 1] == cuts@[k - 1] as int);
        assert(ps[k as int] == slice(s@, if k == 0 { 0 } else { cv[k - 1] + 1 }, cv[k as int]));
        assert(ps[k as int] == slice(s@, a as int, cuts@[k as int] as int));
        out.push(piece);
        k += 1;
    }
    let a: usize = if k == 0 { 0 } else { cuts[k - 1] + 1 };
    assert(k > 0 ==> cv[k - 1] == cuts@[k - 1] as int);
    let piece = slice_vec(s, a, n);
    assert(ps[k as int] == slice(s@, if k == 0 { 0 } else { cv[k - 1] + 1 }, n as int));
    assert(ps[k as int] == slice(s@, a as int, n as int));
    out.push(piece);
    assert forall|j: int| 0 <= j < out@.len() implies #[trigger] out@[j]@ == ps[j] by {
        if j < k {
        }
    }
    out
}

fn is_format_exec(tag: &Vec<char>) -> (r: bool)
    ensures
        r == is_format_tag(tag@),
{
    let t = tag.as_slice();
    let b: &[char] = &['b'];
    let i: &[char] = &['i'];
    let u: &[char] = &['u'];
    let s: &[char] = &['s'];
    let large: &[char] = &['l', 'a', 'r', 'g', 'e'];
    let small: &[char] = &['s', 'm', 'a', 'l', 'l'];
    let rainbow: &[char] = &['r', 'a', 'i', 'n', 'b', 'o', 'w'];
    assert(b@ =~= seq!['b']);
    assert(i@ =~= seq!['i']);
    assert(u@ =~= seq!['u']);
    assert(s@ =~= seq!['s']);
    assert(large@ =~= seq!['l', 'a', 'r', 'g', 'e']);
    assert(small@ =~= seq!['s', 'm', 'a', 'l', 'l']);
    assert(rainbow@ =~= seq!['r', 'a', 'i', 'n', 'b', 'o', 'w']);
    same_chars(t, b) || same_chars(t, i) || same_chars(t, u) || same_chars(t, s) || same_chars(t, large)
        || same_chars(t, small) || same_chars(t, rainbow)
}

fn apply_tag_exec(tag: &Vec<char>, content: &Vec<char>, picks: &Vec<usize>, pos: usize) -> (r: (Vec<char>, usize))
    requires
        pos <= picks@.len(),
    ensures
        (r.0@, r.1 as nat) == apply_tag(tag@, content@, picks@, pos as nat),
        r.1 <= picks@.len(),
    decreases content@.len(), 3int, 0int,
{
    let ruby: &[char] = &['r', 'u', 'b', 'y'];
    let image: &[char] = &['i', 'm', 'a', 'g', 'e'];
    assert(ruby@ =~= ruby_tag());
    assert(image@ =~= image_tag());
    let mut out: Vec<char> = Vec::new();
    let mut next: usize = pos;
    if is_format_exec(tag) {
        let (inner, p1) = render_chars(content, picks, pos);
        next = p1;
        out.push('<');
        append_all(&mut out, tag);
        out.push('>');
        append_all(&mut out, &inner);
        push_lit(&mut out, &['<', '/']);
        append_all(&mut out, tag);
        out.push('>');
    } else if same_chars(tag.as_slice(), ruby) {
        let ps = params_exec(content, 1);
        if ps.len() == 2 {
            proof {
                lemma_params_short(content@, 1, 0);
                lemma_params_short(content@, 1, 1);
            }
            let (base, p1) = render_chars(&ps[0], picks, pos);
            let (reading, p2) = render_chars(&ps[1], picks, p1);
            next = p2;
            push_lit(&mut out, &['<', 'r', 'u', 'b', 'y', '>']);
            append_all(&mut out, &base);
            push_lit(&mut out, &['<', 'r', 'p', '>', '(', '<', '/', 'r', 'p', '>']);
            push_lit(&mut out, &['<', 'r', 't', '>']);
            append_all(&mut out, &reading);
            push_lit(&mut out, &['<', '/', 'r', 't', '>']);
            push_lit(
                &mut out,
                &['<', 'r', 'p', '>', ')', '<', '/', 'r', 'p', '>', '<', '/', 'r', 'u', 'b', 'y', '>'],
            );
        } else {
            let (inner, p1) = render_chars(content, picks, pos);
            next = p1;
            push_lit(&mut out, &['<', 'e', 'm', '>']);
            append_all(&mut out, &inner);
            push_lit(&mut out, &['<', '/', 'e', 'm', '>']);
        }
    } else if same_chars(tag.as_slice(), image) {
        push_lit(&mut out, &['<', 'i', 'm', 'g', ' ', 's', 'r', 'c', '=', '"']);
        append_all(&mut out, content);
        push_lit(&mut out, &['"', '>']);
    } else if tag.len() == 0 {
        let ps = params_exec(content, 0);
        let pick: usize = if pos < picks.len() { picks[pos] } else { 0 };
        let after: usize = if pos < picks.len() { pos + 1 } else { pos };
        let k = pick % ps.len();
        proof {
            lemma_params_short(content@, 0, k as int);
        }
        return render_chars(&ps[k], picks, after);
    } else {
        let (inner, p1) = render_chars(content, picks, pos);
        next = p1;
        out.push('[');
        append_all(&mut out, tag);
        out.push('/');
        append_all(&mut out, &inner);
        out.push('/');
        append_all(&mut out, tag);
        out.push(']');
    }
    assert(out@ =~= apply_tag(tag@, content@, picks@, pos as nat).0);
    (out, next)
}

fn render_chars(raw: &Vec<char>, picks: &Vec<usize>, pos: usize) -> (r: (Vec<char>, usize))
    requires
        pos <= picks@.len(),
    ensures
        (r.0@, r.1 as nat) == render(raw@, picks@, pos as nat),
        r.1 <= picks@.len(),
    decreases raw@.len(), 2int, 0int,
{
    let n = raw.len();
    let mut out: Vec<char> = Vec::new();
    let mut stack: Vec<(Vec<char>, usize)> = Vec::new();
    let mut end: usize = 0;
    let mut i: usize = 0;
    let mut at: usize = pos;
    assert(frames(stack@) =~= Seq::<(Seq<char>, int)>::empty());
    while i < n
        invariant
            n == raw@.len(),
            end <= i <= n,
            at <= picks@.len(),
            scan(raw@, picks@, i as int, end as int, frames(stack@), out@, at as nat) == render(
                raw@,
                picks@,
                pos as nat,
            ),
        decreases n - i,
    {
        let ghost st = frames(stack@);
        let ghost (i0, e0, o0, a0) = (i as int, end as int, out@, at as nat);
        let c = raw[i];
        if c == '[' {
            if stack.len() == 0 {
                push_slice(&mut out, raw, end, i);
                end = i;
            }
            let f = open_frame_exec(raw, i);
            stack.push(f);
            assert(frames(stack@) =~= st.push(open_frame(raw@, i as int)));
            i += 1;
            assert(scan(raw@, picks@, i0, e0, st, o0, a0) == scan(raw@, picks@, i as int, end as int, frames(stack@), out@, at as nat));
        } else if c == ']' && stack.len() > 0 {
            let (p, tag) = close_mark_exec(raw, end, i);
            let top = stack.len() - 1;
            if same_chars(stack[top].0.as_slice(), tag.as_slice()) {
                let f = stack.pop().unwrap();
                assert(frames(stack@) =~= st.drop_last());
                if stack.len() == 0 {
                    let content = slice_vec(raw, f.1, p);
                    let (piece, p2) = apply_tag_exec(&tag, &content, picks, at);
                    append_all(&mut out, &piece);
                    at = p2;
                    end = i + 1;
                }
                i += 1;
                assert(scan(raw@, picks@, i0, e0, st, o0, a0) == scan(raw@, picks@, i as int, end as int, frames(stack@), out@, at as nat));
            } else {
                i += 1;
                assert(scan(raw@, picks@, i0, e0, st, o0, a0) == scan(raw@, picks@, i as int, end as int, frames(stack@), out@, at as nat));
            }
        } else if c == '\\' && i + 1 < n && (raw[i + 1] == '[' || raw[i + 1] == ']' || raw[i + 1]
            == '|' || raw[i + 1] == '/' || raw[i + 1] == '\\') {
            if stack.len() == 0 {
                push_slice(&mut out, raw, end, i);
                out.push(raw[i + 1]);
                assert(out@ =~= o0 + slice(raw@, e0, i0) + seq![raw@[i0 + 1]]);
                end = i + 2;
            }
            i += 2;
            assert(scan(raw@, picks@, i0, e0, st, o0, a0) == scan(raw@, picks@, i as int, end as int, frames(stack@), out@, at as nat));
        } else {
            i += 1;
        }
    }
    push_slice(&mut out, raw, end, n);
    (out, at)
}

/// Turns the markup of a text into its output form.
pub trait TagFormat {
    /// What `parse` makes of `raw`.
    spec fn rendered(&self, raw: Seq<char>) -> Seq<char>;

    fn parse(self, raw: &str) -> (r: String)
        ensures
            r@ == self.rendered(raw@),
    ;
}

/// The fixed tag vocabulary. The anonymous tags met while rendering take the
/// indices of `picks` in turn (each modulo the number of its parameters); once
/// they run out, index 0. A fresh random index for each `[` of the text gives
/// every anonymous tag its own uniform choice.
#[derive(Clone, Debug)]
pub struct CommonTag {
    pub picks: Vec<usize>,
}

impl CommonTag {
    /// Renders the markup of `raw`.
    pub fn render(&self, raw: &str) -> (r: String)
        ensures
            r@ == render(raw@, self.picks@, 0).0,
    {
        let cs = chars_of(raw);
        let (out, _) = render_chars(&cs, &self.picks, 0);
        string_of(out.as_slice())
    }
}

impl TagFormat for CommonTag {
    open spec fn rendered(&self, raw: Seq<char>) -> Seq<char> {
        render(raw, self.picks@, 0).0
    }

    fn parse(self, raw: &str) -> (r: String) {
        self.render(raw)
    }
}

proof fn lemma_pipes_acc(s: Seq<char>, i: int, nest: nat, acc: Seq<int>)
    ensures
        pipes(s, i, nest, acc, 0) == acc + pipes(s, i, nest, Seq::empty(), 0),
    decreases s.len() - i,
{
    if i < 0 || i >= s.len() {
        assert(acc + Seq::<int>::empty() =~= acc);
    } else if s[i] == '[' {
        lemma_pipes_acc(s, i + 1, nest + 1, acc);
    } else if s[i] == ']' && nest > 0 {
        lemma_pipes_acc(s, i + 1, (nest - 1) as nat, acc);
    } else if s[i] == '|' && nest == 0 {
        lemma_pipes_acc(s, i + 1, nest, acc.push(i));
        lemma_pipes_acc(s, i + 1, nest, Seq::empty().push(i));
        assert(acc.push(i) =~= acc + Seq::empty().push(i));
        assert(acc.push(i) + pipes(s, i + 1, nest, Seq::empty(), 0) =~= acc + (Seq::empty().push(i)
            + pipes(s, i + 1, nest, Seq::empty(), 0)));
    } else if s[i] == '\\' && i + 1 < s.len() && (s[i + 1] == '[' || s[i + 1] == ']' || s[i + 1]
        == '|' || s[i + 1] == '\\') {
        lemma_pipes_acc(s, i + 2, nest, acc);
    } else {
        lemma_pipes_acc(s, i + 1, nest, acc);
    }
}

proof fn lemma_pipes_first(s: Seq<char>, i: int, nest: nat)
    ensures
        ({
            let all = pipes(s, i, nest, Seq::empty(), 0);
            pipes(s, i, nest, Seq::empty(), 1) == if all.len() == 0 {
                Seq::<int>::empty()
            } else {
                seq![all[0]]
            }
        }),
    decreases s.len() - i,
{
    if i < 0 || i >= s.len() {
    } else if s[i] == '[' {
        lemma_pipes_first(s, i + 1, nest + 1);
    } else if s[i] == ']' && nest > 0 {
        lemma_pipes_first(s, i + 1, (nest - 1) as nat);
    } else if s[i] == '|' && nest == 0 {
        lemma_pipes_acc(s, i + 1, nest, Seq::empty().push(i));
        assert(Seq::<int>::empty().push(i) =~= seq![i]);
    } else if s[i] == '\\' && i + 1 < s.len() && (s[i + 1] == '[' || s[i + 1] == ']' || s[i + 1]
        == '|' || s[i + 1] == '\\') {
        lemma_pipes_first(s, i + 2, nest);
    } else {
        lemma_pipes_first(s, i + 1, nest);
    }
}

/// A `ruby` tag whose content splits into exactly two parts at its top-level
/// pipes renders as the first part annotated with the second.
pub proof fn lemma_ruby_two_parts(content: Seq<char>, picks: Seq<usize>, pos: nat)
    requires
        params(content, 0).len() == 2,
    ensures
        ({
            let (base, p1) = render(params(content, 0)[0], picks, pos);
            let (reading, p2) = render(params(content, 0)[1], picks, p1);
            apply_tag(ruby_tag(), content, picks, pos) == (ruby_pair(base, reading), p2)
        }),
{
    lemma_pipes_first(content, 0, 0);
    let all = pipes(content, 0, 0, Seq::empty(), 0);
    assert(all.len() == 1);
    assert(seq![all[0]] =~= all);
    assert(params(content, 1) =~= params(content, 0));
    assert(!is_format_tag(ruby_tag())) by {
        assert(ruby_tag().len() == 4);
    }
}

/// A `ruby` tag whose content has no top-level pipe renders as emphasized text.
pub proof fn lemma_ruby_one_part(content: Seq<char>, picks: Seq<usize>, pos: nat)
    requires
        params(content, 0).len() == 1,
    ensures
        ({
            let (body, p1) = render(content, picks, pos);
            apply_tag(ruby_tag(), content, picks, pos) == (emphasis(body), p1)
        }),
{
    lemma_pipes_first(content, 0, 0);
    assert(params(content, 1).len() == 1);
    assert(!is_format_tag(ruby_tag())) by {
        assert(ruby_tag().len() == 4);
    }
}

/// An anonymous tag keeps exactly the parameter that its own index selects,
/// modulo the number of its parameters, rendered; the same index always selects
/// the same one, and the next tag gets the next index.
pub proof fn lemma_anonymous_pick(content: Seq<char>, picks: Seq<usize>, pos: nat)
    ensures
        params(content, 0).len() >= 1,
        apply_tag(Seq::empty(), content, picks, pos) == render(
            params(content, 0)[(pick_at(picks, pos) % params(content, 0).len()) as int],
            picks,
            next_pos(picks, pos),
        ),
{
    assert(!is_format_tag(Seq::empty())) by {
        assert(seq!['b'].len() == 1);
    }
    assert(Seq::<char>::empty() != ruby_tag()) by {
        assert(ruby_tag().len() == 4);
    }
    assert(Seq::<char>::empty() != image_tag()) by {
        assert(image_tag().len() == 5);
    }
}

/// An anonymous tag with nothing inside renders as nothing.
pub proof fn lemma_anonymous_empty(picks: Seq<usize>, pos: nat)
    ensures
        apply_tag(Seq::empty(), Seq::empty(), picks, pos).0 == Seq::<char>::empty(),
{
    lemma_anonymous_pick(Seq::empty(), picks, pos);
    let ps = params(Seq::<char>::empty(), 0);
    assert(ps.len() == 1);
    assert(ps[0] =~= Seq::<char>::empty());
    assert(render(Seq::<char>::empty(), picks, next_pos(picks, pos)).0 =~= Seq::<char>::empty());
}

} // verus!
