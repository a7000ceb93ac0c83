//! Texts as sequences of characters: cutting, splitting, searching and replacing.
use vstd::prelude::*;

verus! {

/// `String::push`: appends one character.
pub assume_specification[ String::push ](s: &mut String, ch: char)
    ensures
        final(s)@ == old(s)@.push(ch),
;

/// The characters with Unicode's `White_Space` property.
pub open spec fn is_space(c: char) -> bool {
    let code = c as u32;
    ||| 0x09 <= code <= 0x0d
    ||| code == 0x20
    ||| code == 0x85
    ||| code == 0xa0
    ||| code == 0x1680
    ||| 0x2000 <= code <= 0x200a
    ||| code == 0x2028
    ||| code == 0x2029
    ||| code == 0x202f
    ||| code == 0x205f
    ||| code == 0x3000
}

/// `s` without the longest run of `drop` characters at its front.
pub open spec fn without_front(s: Seq<char>, drop: spec_fn(char) -> bool) -> Seq<char>
    decreases s.len(),
{
    if s.len() > 0 && drop(s.first()) {
        without_front(s.drop_first(), drop)
    } else {
        s
    }
}

/// `s` without the longest run of `drop` characters at its back.
pub open spec fn without_back(s: Seq<char>, drop: spec_fn(char) -> bool) -> Seq<char>
    decreases s.len(),
{
    if s.len() > 0 && drop(s.last()) {
        without_back(s.drop_last(), drop)
    } else {
        s
    }
}

/// `s` without the `drop` characters at either end.
pub open spec fn without_ends(s: Seq<char>, drop: spec_fn(char) -> bool) -> Seq<char> {
    without_back(without_front(s, drop), drop)
}

/// The white space.
pub open spec fn spaces() -> spec_fn(char) -> bool {
    |c: char| is_space(c)
}

/// The one character `quote`.
pub open spec fn only(quote: char) -> spec_fn(char) -> bool {
    |c: char| c == quote
}

/// `s` without the white space at either end.
pub open spec fn trimmed(s: Seq<char>) -> Seq<char> {
    without_ends(s, spaces())
}

/// `s` without the characters `quote` at either end.
pub open spec fn unquoted(s: Seq<char>, quote: char) -> Seq<char> {
    without_ends(s, only(quote))
}

/// What follows `prefix` in `s`, where `s` begins with it.
pub open spec fn after_prefix(s: Seq<char>, prefix: Seq<char>) -> Option<Seq<char>> {
    if prefix.is_prefix_of(s) {
        Some(s.skip(prefix.len() as int))
    } else {
        None
    }
}

/// `s` with every occurrence of `pattern` replaced by `with`: the occurrences are found from
/// the front and do not overlap.
pub open spec fn replaced(s: Seq<char>, pattern: Seq<char>, with: Seq<char>) -> Seq<char>
    decreases s.len(),
{
    if s.len() == 0 || pattern.len() == 0 {
        s
    } else if pattern.is_prefix_of(s) {
        with + replaced(s.skip(pattern.len() as int), pattern, with)
    } else {
        seq![s.first()] + replaced(s.drop_first(), pattern, with)
    }
}

/// `pattern` stands somewhere in `s`.
pub open spec fn occurs(s: Seq<char>, pattern: Seq<char>) -> bool {
    exists|i: int| occurs_at(s, pattern, i)
}

/// `pattern` stands in `s` at `i`.
pub open spec fn occurs_at(s: Seq<char>, pattern: Seq<char>, i: int) -> bool {
    &&& 0 <= i <= s.len() - pattern.len()
    &&& s.subrange(i, i + pattern.len()) == pattern
}

/// The pieces of `s` between its characters `separator`, in order.
pub open spec fn pieces(s: Seq<char>, separator: char) -> Seq<Seq<char>>
    decreases s.len(),
{
    if s.len() == 0 {
        seq![s]
    } else {
        let rest = pieces(s.drop_first(), separator);
        if s.first() == separator {
            seq![Seq::<char>::empty()] + rest
        } else {
            rest.update(0, seq![s.first()] + rest[0])
        }
    }
}

/// The lower-case form of an ASCII letter; any other character itself.
pub open spec fn lower(c: char) -> char {
    if 'A' <= c <= 'Z' {
        ((c as u32) + 32) as char
    } else {
        c
    }
}

/// `s` with its ASCII letters in lower case.
pub open spec fn lowercase(s: Seq<char>) -> Seq<char> {
    s.map_values(|c: char| lower(c))
}

/// The characters of `s`.
pub fn chars_of(s: &str) -> (v: Vec<char>)
    ensures
        v@ == s@,
{
    let mut v: Vec<char> = Vec::new();
    for c in it: s.chars()
        invariant
            v@ == it.seq().take(it.index() as int),
            it.seq() == s@,
    {
        v.push(c);
    }
    assert(s@.take(s@.len() as int) == s@);
    v
}

/// The text of the characters `from..to` of `v`.
pub fn text_of(v: &Vec<char>, from: usize, to: usize) -> (s: String)
    requires
        from <= to <= v@.len(),
    ensures
        s@ == v@.subrange(from as int, to as int),
{
    let mut s: String = String::new();
    let mut i: usize = from;
    while i < to
        invariant
            from <= i <= to <= v@.len(),
            s@ == v@.subrange(from as int, i as int),
        decreases to - i,
    {
        s.push(v[i]);
        i = i + 1;
    }
    s
}

/// `c` in lower case, where it is an ASCII letter.
pub fn lower_char(c: char) -> (l: char)
    ensures
        l == lower(c),
{
    if 'A' <= c && c <= 'Z' {
        ((c as u8) + 32) as char
    } else {
        c
    }
}

/// Whether `c` is white space.
pub fn is_space_char(c: char) -> (b: bool)
    ensures
        b == is_space(c),
{
    let code: u32 = c as u32;
    (0x09 <= code && code <= 0x0d) || code == 0x20 || code == 0x85 || code == 0xa0 || code
        == 0x1680 || (0x2000 <= code && code <= 0x200a) || code == 0x2028 || code == 0x2029 || code
        == 0x202f || code == 0x205f || code == 0x3000
}

proof fn lemma_without_front(s: Seq<char>, drop: spec_fn(char) -> bool, k: int)
    requires
        0 <= k <= s.len(),
        forall|i: int| 0 <= i < k ==> drop(#[trigger] s[i]),
        k < s.len() ==> !drop(s[k]),
    ensures
        without_front(s, drop) == s.skip(k),
    decreases k,
{
    if k == 0 {
        assert(s.skip(0) == s);
    } else {
        assert(drop(s[0]));
        let rest = s.drop_first();
        assert forall|i: int| 0 <= i < k - 1 implies drop(#[trigger] rest[i]) by {
            assert(rest[i] == s[i + 1]);
        }
        lemma_without_front(rest, drop, k - 1);
        assert(rest.skip(k - 1) == s.skip(k));
    }
}

proof fn lemma_without_back(s: Seq<char>, drop: spec_fn(char) -> bool, k: int)
    requires
        0 <= k <= s.len(),
        forall|i: int| k <= i < s.len() ==> drop(#[trigger] s[i]),
        k > 0 ==> !drop(s[k - 1]),
    ensures
        without_back(s, drop) == s.take(k),
    decreases s.len() - k,
{
    if k == s.len() {
        assert(s.take(k) == s);
    } else {
        assert(drop(s[s.len() - 1]));
        lemma_without_back(s.drop_last(), drop, k);
        assert(s.drop_last().take(k) == s.take(k));
    }
}

/// The characters that are dropped at the ends of a text: white space, or one character.
spec fn dropped(quote: Option<char>) -> spec_fn(char) -> bool {
    match quote {
        None => spaces(),
        Some(q) => only(q),
    }
}

fn is_dropped(c: char, quote: Option<char>) -> (b: bool)
    ensures
        b == dropped(quote)(c),
{
    match quote {
        None => is_space_char(c),
        Some(q) => c == q,
    }
}

fn cut_ends(s: &str, quote: Option<char>) -> (t: String)
    ensures
        t@ == without_ends(s@, dropped(quote)),
{
    let v = chars_of(s);
    let mut from: usize = 0;
    while from < v.len() && is_dropped(v[from], quote)
        invariant
            from <= v@.len(),
            forall|i: int| 0 <= i < from ==> dropped(quote)(#[trigger] v@[i]),
        decreases v@.len() - from,
    {
        from = from + 1;
    }
    let mut to: usize = v.len();
    while to > from && is_dropped(v[to - 1], quote)
        invariant
            from <= to <= v@.len(),
            forall|i: int| to <= i < v@.len() ==> dropped(quote)(#[trigger] v@[i]),
        decreases to,
    {
        to = to - 1;
    }
    proof {
        let drop = dropped(quote);
        lemma_without_front(v@, drop, from as int);
        let tail = v@.skip(from as int);
        assert forall|i: int| to - from <= i < tail.len() implies drop(#[trigger] tail[i]) by {
            assert(tail[i] == v@[i + from]);
        }
        lemma_without_back(tail, drop, to - from);
        assert(tail.take(to - from) == v@.subrange(from as int, to as int));
    }
    text_of(&v, from, to)
}

/// `s` without the white space at either end.
pub fn trim(s: &str) -> (t: String)
    ensures
        t@ == trimmed(s@),
{
    cut_ends(s, None)
}

/// `s` without the characters `quote` at either end.
pub fn trim_quote(s: &str, quote: char) -> (t: String)
    ensures
        t@ == unquoted(s@, quote),
{
    cut_ends(s, Some(quote))
}

/// Whether `pattern` stands in `v` at `at`.
fn stands_at(v: &Vec<char>, at: usize, pattern: &Vec<char>) -> (b: bool)
    requires
        at <= v@.len(),
    ensures
        b == pattern@.is_prefix_of(v@.skip(at as int)),
{
    let len: usize = v.len();
    if pattern.len() > len - at {
        return false;
    }
    let mut i: usize = 0;
    while i < pattern.len()
        invariant
            i <= pattern@.len() <= len - at,
            at <= len == v@.len(),
            forall|j: int| 0 <= j < i ==> pattern@[j] == #[trigger] v@.skip(at as int)[j],
        decreases pattern@.len() - i,
    {
        if pattern[i] != v[at + i] {
            assert(v@.skip(at as int)[i as int] != pattern@[i as int]);
            assert(v@.skip(at as int).subrange(0, pattern@.len() as int)[i as int]
                != pattern@[i as int]);
            return false;
        }
        i = i + 1;
    }
    assert(v@.skip(at as int).subrange(0, pattern@.len() as int) == pattern@);
    true
}

/// Whether `s` begins with `prefix`.
pub fn starts_with(s: &str, prefix: &str) -> (b: bool)
    ensures
        b == prefix@.is_prefix_of(s@),
{
    let v = chars_of(s);
    let p = chars_of(prefix);
    assert(v@.skip(0) == v@);
    stands_at(&v, 0, &p)
}

/// What follows `prefix` in `s`, where `s` begins with it.
pub fn strip_prefix(s: &str, prefix: &str) -> (rest: Option<String>)
    ensures
        match rest {
            Some(r) => after_prefix(s@, prefix@) == Some(r@),
            None => after_prefix(s@, prefix@) is None,
        },
{
    let v = chars_of(s);
    let p = chars_of(prefix);
    assert(v@.skip(0) == v@);
    if stands_at(&v, 0, &p) {
        assert(v@.subrange(p@.len() as int, v@.len() as int) == v@.skip(p@.len() as int));
        Some(text_of(&v, p.len(), v.len()))
    } else {
        None
    }
}

/// Whether two texts are the same.
pub fn same(a: &str, b: &str) -> (r: bool)
    ensures
        r == (a@ == b@),
{
    let v = chars_of(a);
    let w = chars_of(b);
    if v.len() != w.len() {
        return false;
    }
    let mut i: usize = 0;
    while i < v.len()
        invariant
            i <= v@.len() == w@.len(),
            v@ == a@,
            w@ == b@,
            forall|j: int| 0 <= j < i ==> v@[j] == w@[j],
        decreases v@.len() - i,
    {
        if v[i] != w[i] {
            return false;
        }
        i = i + 1;
    }
    assert(v@ == w@);
    true
}

/// `s` with every occurrence of `pattern` replaced by `with`.
pub fn replace(s: &str, pattern: &str, with: &str) -> (t: String)
    requires
        pattern@.len() > 0,
    ensures
        t@ == replaced(s@, pattern@, with@),
{
    let v = chars_of(s);
    let p = chars_of(pattern);
    let mut t: String = String::new();
    let mut i: usize = 0;
    assert(v@.skip(0) == v@);
    assert(t@ + replaced(v@, p@, with@) == replaced(v@, p@, with@));
    while i < v.len()
        invariant
            i <= v@.len(),
            v@ == s@,
            p@ == pattern@,
            p@.len() > 0,
            t@ + replaced(v@.skip(i as int), p@, with@) == replaced(s@, pattern@, with@),
        decreases v@.len() - i,
    {
        let ghost rest = v@.skip(i as int);
        let ghost before = t@;
        if stands_at(&v, i, &p) {
            t.append(with);
            assert(rest.skip(p@.len() as int) == v@.skip(i + p@.len()));
            assert(before + (with@ + replaced(rest.skip(p@.len() as int), p@, with@)) == (before
                + with@) + replaced(rest.skip(p@.len() as int), p@, with@));
            i = i + p.len();
        } else {
            t.push(v[i]);
            assert(rest.drop_first() == v@.skip(i + 1));
            assert(rest.first() == v@[i as int]);
            assert(before + (seq![v@[i as int]] + replaced(rest.drop_first(), p@, with@))
                == before.push(v@[i as int]) + replaced(rest.drop_first(), p@, with@));
            i = i + 1;
        }
    }
    assert(v@.skip(i as int) == Seq::<char>::empty());
    assert(t@ + Seq::<char>::empty() == t@);
    t
}

/// The views of a list of texts.
pub open spec fn views(list: Seq<String>) -> Seq<Seq<char>> {
    list.map_values(|s: String| s@)
}

proof fn lemma_pieces_nonempty(s: Seq<char>, separator: char)
    ensures
        pieces(s, separator).len() > 0,
    decreases s.len(),
{
    if s.len() > 0 {
        lemma_pieces_nonempty(s.drop_first(), separator);
    }
}

/// The pieces of `s` between its characters `separator`.
pub fn split(s: &str, separator: char) -> (parts: Vec<String>)
    ensures
        views(parts@) == pieces(s@, separator),
{
    let v = chars_of(s);
    let mut parts: Vec<String> = Vec::new();
    let mut piece: String = String::new();
    let mut i: usize = 0;
    proof {
        lemma_pieces_nonempty(s@, separator);
        assert(v@.skip(0) == v@);
        assert(views(parts@) == Seq::<Seq<char>>::empty());
        let all = pieces(s@, separator);
        assert(piece@ + all[0] == all[0]);
        assert(all.update(0, piece@ + all[0]) == all);
        assert(views(parts@) + all.update(0, piece@ + all[0]) == all);
    }
    while i < v.len()
        invariant
            i <= v@.len(),
            v@ == s@,
            pieces(v@.skip(i as int), separator).len() > 0,
            views(parts@) + pieces(v@.skip(i as int), separator).update(
                0,
                piece@ + pieces(v@.skip(i as int), separator)[0],
            ) == pieces(s@, separator),
        decreases v@.len() - i,
    {
        let ghost rest = v@.skip(i as int);
        let ghost tail = pieces(rest.drop_first(), separator);
        let ghost old_parts = views(parts@);
        let ghost old_piece = piece@;
        let c: char = v[i];
        proof {
            lemma_pieces_nonempty(rest.drop_first(), separator);
            assert(rest.drop_first() == v@.skip(i + 1));
            assert(rest.first() == c);
        }
        if c == separator {
            parts.push(piece);
            piece = String::new();
            proof {
                assert(views(parts@) == old_parts.push(old_piece));
                assert(piece@ + tail[0] == tail[0]);
                assert(tail.update(0, piece@ + tail[0]) == tail);
                assert(old_piece + pieces(rest, separator)[0] == old_piece);
                assert(pieces(rest, separator).update(0, old_piece) == seq![old_piece] + tail);
                assert(old_parts + (seq![old_piece] + tail) == old_parts.push(old_piece) + tail);
            }
        } else {
            piece.push(c);
            proof {
                assert(old_piece + (seq![c] + tail[0]) == piece@ + tail[0]);
                let here = pieces(rest, separator);
                assert(here.update(0, old_piece + here[0]) == tail.update(0, piece@ + tail[0]));
            }
        }
        i = i + 1;
    }
    proof {
        assert(v@.skip(i as int) == Seq::<char>::empty());
        assert(piece@ + Seq::<char>::empty() == piece@);
        assert(pieces(Seq::<char>::empty(), separator).update(0, piece@) == seq![piece@]);
        assert(views(parts@).push(piece@) == views(parts@) + seq![piece@]);
    }
    let ghost before = parts@;
    parts.push(piece);
    assert(views(parts@) == views(before).push(piece@));
    parts
}

/// `s` with its ASCII letters in lower case.
pub fn to_lowercase(s: &str) -> (t: String)
    ensures
        t@ == lowercase(s@),
{
    let v = chars_of(s);
    let mut t: String = String::new();
    let mut i: usize = 0;
    while i < v.len()
        invariant
            i <= v@.len(),
            v@ == s@,
            t@ == lowercase(s@.take(i as int)),
        decreases v@.len() - i,
    {
        t.push(lower_char(v[i]));
        assert(lowercase(s@.take(i + 1)) == lowercase(s@.take(i as int)).push(lower(s@[i as int])));
        i = i + 1;
    }
    assert(s@.take(i as int) == s@);
    t
}

proof fn lemma_without_back_ends(s: Seq<char>, drop: spec_fn(char) -> bool)
    ensures
        ({
            let t = without_back(s, drop);
            t.len() > 0 ==> t.len() <= s.len() && t[0] == s[0] && !drop(t.last())
        }),
    decreases s.len(),
{
    if s.len() > 0 && drop(s.last()) {
        lemma_without_back_ends(s.drop_last(), drop);
    }
}

proof fn lemma_without_front_begins(s: Seq<char>, drop: spec_fn(char) -> bool)
    ensures
        without_front(s, drop).len() > 0 ==> !drop(without_front(s, drop)[0]),
    decreases s.len(),
{
    if s.len() > 0 && drop(s.first()) {
        lemma_without_front_begins(s.drop_first(), drop);
    }
}

/// A trimmed text neither begins nor ends with white space, and a text that does not is trimmed
/// already.
pub proof fn law_trimmed_has_no_space_at_its_ends(s: Seq<char>)
    ensures
        trimmed(s).len() > 0 ==> !is_space(trimmed(s)[0]) && !is_space(trimmed(s).last()),
        s.len() > 0 && !is_space(s[0]) && !is_space(s.last()) ==> trimmed(s) == s,
{
    let front = without_front(s, spaces());
    lemma_without_front_begins(s, spaces());
    lemma_without_back_ends(front, spaces());
}

/// A text without the pattern stays as it is.
pub proof fn law_replacing_nothing_changes_nothing(
    s: Seq<char>,
    pattern: Seq<char>,
    with: Seq<char>,
)
    requires
        !occurs(s, pattern),
    ensures
        replaced(s, pattern, with) == s,
    decreases s.len(),
{
    if s.len() > 0 && pattern.len() > 0 {
        if pattern.is_prefix_of(s) {
            assert(occurs_at(s, pattern, 0));
        }
        let rest = s.drop_first();
        assert forall|i: int| !occurs_at(rest, pattern, i) by {
            if occurs_at(rest, pattern, i) {
                assert(rest.subrange(i, i + pattern.len()) == s.subrange(
                    i + 1,
                    i + 1 + pattern.len(),
                ));
                assert(occurs_at(s, pattern, i + 1));
            }
        }
        law_replacing_nothing_changes_nothing(rest, pattern, with);
        assert(seq![s.first()] + rest == s);
    }
}

/// The first occurrence is replaced where it stands, and the rest behind it.
pub proof fn law_first_occurrence_is_replaced(
    s: Seq<char>,
    pattern: Seq<char>,
    with: Seq<char>,
    at: int,
)
    requires
        pattern.len() > 0,
        occurs_at(s, pattern, at),
        forall|i: int| 0 <= i < at ==> !occurs_at(s, pattern, i),
    ensures
        replaced(s, pattern, with) == s.take(at) + with + replaced(
            s.skip(at + pattern.len()),
            pattern,
            with,
        ),
    decreases at,
{
    let tail = replaced(s.skip(at + pattern.len()), pattern, with);
    if at == 0 {
        assert(s.subrange(0, pattern.len() as int) == pattern);
        assert(pattern.is_prefix_of(s));
        assert(s.take(0) + with + tail == with + tail);
    } else {
        assert(!occurs_at(s, pattern, 0));
        if pattern.is_prefix_of(s) {
            assert(s.subrange(0, pattern.len() as int) == pattern);
        }
        let rest = s.drop_first();
        assert forall|i: int| 0 <= i <= rest.len() - pattern.len() implies rest.subrange(
            i,
            i + pattern.len(),
        ) == #[trigger] s.subrange(i + 1, i + 1 + pattern.len()) by {}
        assert(rest.subrange(at - 1, at - 1 + pattern.len()) == s.subrange(
            at,
            at + pattern.len(),
        ));
        assert forall|i: int| 0 <= i < at - 1 implies !occurs_at(rest, pattern, i) by {
            if occurs_at(rest, pattern, i) {
                assert(rest.subrange(i, i + pattern.len()) == s.subrange(
                    i + 1,
                    i + 1 + pattern.len(),
                ));
                assert(occurs_at(s, pattern, i + 1));
            }
        }
        law_first_occurrence_is_replaced(rest, pattern, with, at - 1);
        assert(rest.skip(at - 1 + pattern.len()) == s.skip(at + pattern.len()));
        assert(seq![s.first()] + (rest.take(at - 1) + with + tail) == s.take(at) + with + tail);
    }
}

proof fn lemma_core_is_left(
    front: Seq<char>,
    core: Seq<char>,
    back: Seq<char>,
    drop: spec_fn(char) -> bool,
)
    requires
        forall|i: int| 0 <= i < front.len() ==> drop(#[trigger] front[i]),
        forall|i: int| 0 <= i < back.len() ==> drop(#[trigger] back[i]),
        core.len() > 0 ==> !drop(core[0]) && !drop(core.last()),
    ensures
        without_ends(front + core + back, drop) == core,
{
    let s = front + core + back;
    if core.len() > 0 {
        assert forall|i: int| 0 <= i < front.len() implies drop(#[trigger] s[i]) by {
            assert(s[i] == front[i]);
        }
        assert(s[front.len() as int] == core[0]);
        lemma_without_front(s, drop, front.len() as int);
        let rest = s.skip(front.len() as int);
        assert(rest == core + back);
        assert forall|i: int| core.len() <= i < rest.len() implies drop(#[trigger] rest[i]) by {
            assert(rest[i] == back[i - core.len()]);
        }
        assert(rest[core.len() - 1] == core.last());
        lemma_without_back(rest, drop, core.len() as int);
        assert(rest.take(core.len() as int) == core);
    } else {
        assert forall|i: int| 0 <= i < s.len() implies drop(#[trigger] s[i]) by {
            if i < front.len() {
                assert(s[i] == front[i]);
            } else {
                assert(s[i] == back[i - front.len()]);
            }
        }
        lemma_without_front(s, drop, s.len() as int);
        assert(s.skip(s.len() as int) == core);
    }
}

/// Trimming leaves a text that neither begins nor ends with white space, from whatever white
/// space stands around it; of white space alone it leaves nothing.
pub proof fn law_trimming_leaves_the_core(front: Seq<char>, core: Seq<char>, back: Seq<char>)
    requires
        forall|i: int| 0 <= i < front.len() ==> is_space(#[trigger] front[i]),
        forall|i: int| 0 <= i < back.len() ==> is_space(#[trigger] back[i]),
        core.len() > 0 ==> !is_space(core[0]) && !is_space(core.last()),
    ensures
        trimmed(front + core + back) == core,
{
    assert forall|i: int| 0 <= i < front.len() implies spaces()(#[trigger] front[i]) by {}
    assert forall|i: int| 0 <= i < back.len() implies spaces()(#[trigger] back[i]) by {}
    lemma_core_is_left(front, core, back, spaces());
}

/// Taking the quotes off leaves a text that neither begins nor ends with one, from however many
/// stand around it.
pub proof fn law_unquoting_leaves_the_core(
    front: Seq<char>,
    core: Seq<char>,
    back: Seq<char>,
    quote: char,
)
    requires
        forall|i: int| 0 <= i < front.len() ==> #[trigger] front[i] == quote,
        forall|i: int| 0 <= i < back.len() ==> #[trigger] back[i] == quote,
        core.len() > 0 ==> core[0] != quote && core.last() != quote,
    ensures
        unquoted(front + core + back, quote) == core,
{
    assert forall|i: int| 0 <= i < front.len() implies only(quote)(#[trigger] front[i]) by {}
    assert forall|i: int| 0 <= i < back.len() implies only(quote)(#[trigger] back[i]) by {}
    lemma_core_is_left(front, core, back, only(quote));
}

proof fn lemma_front_is_dropped(s: Seq<char>, drop: spec_fn(char) -> bool) -> (front: Seq<char>)
    ensures
        s == front + without_front(s, drop),
        forall|i: int| 0 <= i < front.len() ==> drop(#[trigger] front[i]),
    decreases s.len(),
{
    if s.len() > 0 && drop(s.first()) {
        let rest = lemma_front_is_dropped(s.drop_first(), drop);
        let front = seq![s.first()] + rest;
        assert forall|i: int| 0 <= i < front.len() implies drop(#[trigger] front[i]) by {
            if i > 0 {
                assert(front[i] == rest[i - 1]);
            }
        }
        assert(s == seq![s.first()] + s.drop_first());
        assert(s == front + without_front(s, drop));
        front
    } else {
        assert(s == Seq::<char>::empty() + s);
        seq![]
    }
}

proof fn lemma_back_is_dropped(s: Seq<char>, drop: spec_fn(char) -> bool) -> (back: Seq<char>)
    ensures
        s == without_back(s, drop) + back,
        forall|i: int| 0 <= i < back.len() ==> drop(#[trigger] back[i]),
    decreases s.len(),
{
    if s.len() > 0 && drop(s.last()) {
        let rest = lemma_back_is_dropped(s.drop_last(), drop);
        let back = rest.push(s.last());
        assert(s == s.drop_last().push(s.last()));
        assert(s == without_back(s, drop) + back);
        back
    } else {
        assert(s == s + Seq::<char>::empty());
        seq![]
    }
}

/// What trimming takes off a text is white space, at its front and at its back.
pub proof fn law_trimming_takes_only_space(s: Seq<char>) -> (ends: (Seq<char>, Seq<char>))
    ensures
        s == ends.0 + trimmed(s) + ends.1,
        forall|i: int| 0 <= i < ends.0.len() ==> is_space(#[trigger] ends.0[i]),
        forall|i: int| 0 <= i < ends.1.len() ==> is_space(#[trigger] ends.1[i]),
{
    let front = lemma_front_is_dropped(s, spaces());
    let back = lemma_back_is_dropped(without_front(s, spaces()), spaces());
    assert(s == front + trimmed(s) + back);
    assert forall|i: int| 0 <= i < front.len() implies is_space(#[trigger] front[i]) by {
        assert(spaces()(front[i]));
    }
    assert forall|i: int| 0 <= i < back.len() implies is_space(#[trigger] back[i]) by {
        assert(spaces()(back[i]));
    }
    (front, back)
}

/// What follows a prefix is what was put behind it, and only a text with the prefix has it.
pub proof fn law_after_prefix(s: Seq<char>, prefix: Seq<char>, rest: Seq<char>)
    ensures
        after_prefix(s, prefix) == Some(rest) <==> s == prefix + rest,
        after_prefix(s, prefix) is Some <==> s.len() >= prefix.len() && s.take(prefix.len() as int)
            == prefix,
{
    if s == prefix + rest {
        assert(s.subrange(0, prefix.len() as int) == prefix);
        assert(s.skip(prefix.len() as int) == rest);
    }
    if prefix.is_prefix_of(s) {
        assert(s.subrange(0, prefix.len() as int) == prefix);
        assert(s == prefix + s.skip(prefix.len() as int));
    }
    if s.len() >= prefix.len() {
        assert(s.take(prefix.len() as int) == s.subrange(0, prefix.len() as int));
    }
}

/// Lower case goes letter by letter.
pub proof fn law_lower_case_goes_by_letters(s: Seq<char>)
    ensures
        lowercase(s).len() == s.len(),
        forall|i: int|
            0 <= i < s.len() ==> (#[trigger] lowercase(s)[i]) == if 'A' <= s[i] <= 'Z' {
                ((s[i] as u32) + 32) as char
            } else {
                s[i]
            },
{
}

/// Texts put together with a separator between them.
pub open spec fn rejoined(parts: Seq<Seq<char>>, separator: char) -> Seq<char>
    decreases parts.len(),
{
    if parts.len() == 0 {
        seq![]
    } else if parts.len() == 1 {
        parts[0]
    } else {
        parts[0] + seq![separator] + rejoined(parts.drop_first(), separator)
    }
}

/// The pieces of a text hold no separator, and put together again they are the text.
pub proof fn law_pieces_make_up_the_text(s: Seq<char>, separator: char)
    ensures
        pieces(s, separator).len() > 0,
        forall|i: int|
            0 <= i < pieces(s, separator).len() ==> !(#[trigger] pieces(s, separator)[i]).contains(
                separator,
            ),
        rejoined(pieces(s, separator), separator) == s,
    decreases s.len(),
{
    let all = pieces(s, separator);
    if s.len() == 0 {
        assert(all[0] == s);
    } else {
        let tail = s.drop_first();
        let rest = pieces(tail, separator);
        law_pieces_make_up_the_text(tail, separator);
        assert(s == seq![s.first()] + tail);
        if s.first() == separator {
            assert(all[0] == Seq::<char>::empty());
            assert(all.drop_first() == rest);
            assert forall|i: int| 0 <= i < all.len() implies !(#[trigger] all[i]).contains(
                separator,
            ) by {
                if i > 0 {
                    assert(all[i] == rest[i - 1]);
                }
            }
            assert(Seq::<char>::empty() + seq![separator] + tail == s);
        } else {
            let first = seq![s.first()] + rest[0];
            assert(all[0] == first);
            assert(all.drop_first() == rest.drop_first());
            assert forall|i: int| 0 <= i < all.len() implies !(#[trigger] all[i]).contains(
                separator,
            ) by {
                if i > 0 {
                    assert(all[i] == rest[i]);
                } else if first.contains(separator) {
                    let k = choose|k: int| 0 <= k < first.len() && first[k] == separator;
                    assert(rest[0][k - 1] == separator);
                }
            }
            if rest.len() == 1 {
                assert(rejoined(all, separator) == first);
                assert(first == s);
            } else {
                let later = rejoined(rest.drop_first(), separator);
                assert(first + seq![separator] + later == seq![s.first()] + (rest[0] + seq![
                    separator,
                ] + later));
            }
        }
    }
}

/// Two texts with a separator between them have the pieces of the one and then of the other.
pub proof fn law_pieces_on_both_sides(a: Seq<char>, b: Seq<char>, separator: char)
    ensures
        pieces(a + seq![separator] + b, separator) == pieces(a, separator) + pieces(b, separator),
    decreases a.len(),
{
    let s = a + seq![separator] + b;
    if a.len() == 0 {
        assert(s.drop_first() == b);
        assert(a == Seq::<char>::empty());
    } else {
        let tail = a.drop_first();
        law_pieces_on_both_sides(tail, b, separator);
        lemma_pieces_nonempty(tail, separator);
        assert(s.drop_first() == tail + seq![separator] + b);
        assert(s.first() == a.first());
        let left = pieces(tail, separator);
        let right = pieces(b, separator);
        if a.first() == separator {
            assert(seq![Seq::<char>::empty()] + (left + right) == (seq![Seq::<char>::empty()]
                + left) + right);
        } else {
            assert((left + right).update(0, seq![a.first()] + left[0]) == left.update(
                0,
                seq![a.first()] + left[0],
            ) + right);
        }
    }
}

/// A text without the separator is one piece.
pub proof fn law_text_without_separator_is_one_piece(s: Seq<char>, separator: char)
    requires
        !s.contains(separator),
    ensures
        pieces(s, separator) == seq![s],
    decreases s.len(),
{
    if s.len() > 0 {
        let tail = s.drop_first();
        assert(s[0] != separator);
        assert(!tail.contains(separator)) by {
            if tail.contains(separator) {
                let k = choose|k: int| 0 <= k < tail.len() && tail[k] == separator;
                assert(s[k + 1] == separator);
            }
        }
        law_text_without_separator_is_one_piece(tail, separator);
        assert(seq![s.first()] + tail == s);
    }
}

/// The views of a list of texts are those of its texts, in order.
pub proof fn law_views_go_by_items(list: Seq<String>)
    ensures
        views(list).len() == list.len(),
        forall|i: int| 0 <= i < list.len() ==> (#[trigger] views(list)[i]) == list[i]@,
{
}

} // verus!
