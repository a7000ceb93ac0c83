//! Paths as texts. Which paths are absolute, how two are joined and when they are the same is for
//! the host to say; the rules of Unix-like hosts are given here.
use crate::text::{
    law_pieces_make_up_the_text, law_pieces_on_both_sides, law_text_without_separator_is_one_piece,
    pieces, rejoined, same, split, views,
};
use vstd::prelude::*;

verus! {

/// What the host says of a path: whether it is absolute, and what it is when joined to the working
/// directory.
#[derive(Debug, PartialEq)]
pub struct PathAnswer {
    pub path: String,
    pub absolute: bool,
    pub in_cwd: String,
}

/// Whether the host holds two paths for the same.
#[derive(Debug, PartialEq)]
pub struct PathComparison {
    pub first: String,
    pub second: String,
    pub same: bool,
}

/// What the host says of the paths that it was asked about. Any other path goes by the rules of
/// Unix-like hosts, which need not be asked.
#[derive(Debug, PartialEq)]
pub struct HostPaths {
    pub answers: Vec<PathAnswer>,
    pub comparisons: Vec<PathComparison>,
}

/// The content of a [`PathAnswer`].
pub struct Answer {
    pub path: Seq<char>,
    pub absolute: bool,
    pub in_cwd: Seq<char>,
}

/// The content of a [`PathComparison`].
pub struct Comparison {
    pub first: Seq<char>,
    pub second: Seq<char>,
    pub same: bool,
}

/// The content of [`HostPaths`].
pub struct HostRules {
    pub answers: Seq<Answer>,
    pub comparisons: Seq<Comparison>,
}

impl View for PathAnswer {
    type V = Answer;

    open spec fn view(&self) -> Answer {
        Answer { path: self.path@, absolute: self.absolute, in_cwd: self.in_cwd@ }
    }
}

impl View for PathComparison {
    type V = Comparison;

    open spec fn view(&self) -> Comparison {
        Comparison { first: self.first@, second: self.second@, same: self.same }
    }
}

impl View for HostPaths {
    type V = HostRules;

    open spec fn view(&self) -> HostRules {
        HostRules {
            answers: self.answers@.map_values(|a: PathAnswer| a@),
            comparisons: self.comparisons@.map_values(|c: PathComparison| c@),
        }
    }
}

/// The first answer on a path.
pub open spec fn answer_on(answers: Seq<Answer>, path: Seq<char>) -> Option<Answer>
    decreases answers.len(),
{
    if answers.len() == 0 {
        None
    } else if answers.first().path == path {
        Some(answers.first())
    } else {
        answer_on(answers.drop_first(), path)
    }
}

/// The first comparison of two paths.
pub open spec fn comparison_of(
    comparisons: Seq<Comparison>,
    first: Seq<char>,
    second: Seq<char>,
) -> Option<Comparison>
    decreases comparisons.len(),
{
    if comparisons.len() == 0 {
        None
    } else if comparisons.first().first == first && comparisons.first().second == second {
        Some(comparisons.first())
    } else {
        comparison_of(comparisons.drop_first(), first, second)
    }
}

impl HostRules {
    /// The rules of Unix-like hosts, for every path.
    pub open spec fn unix() -> HostRules {
        HostRules { answers: seq![], comparisons: seq![] }
    }

    /// The path is absolute.
    pub open spec fn absolute(self, path: Seq<char>) -> bool {
        match answer_on(self.answers, path) {
            Some(answer) => answer.absolute,
            None => rooted(path),
        }
    }

    /// `path` as seen from the working directory `cwd`.
    pub open spec fn within(self, cwd: Seq<char>, path: Seq<char>) -> Seq<char> {
        match answer_on(self.answers, path) {
            Some(answer) => answer.in_cwd,
            None => joined(cwd, path),
        }
    }

    /// The texts name the same path.
    pub open spec fn equal(self, first: Seq<char>, second: Seq<char>) -> bool {
        match comparison_of(self.comparisons, first, second) {
            Some(comparison) => comparison.same,
            None => same_path(first, second),
        }
    }

    /// Every path is the same as itself.
    pub open spec fn equal_to_itself(self) -> bool {
        forall|path: Seq<char>| #[trigger] self.equal(path, path)
    }
}

/// On Unix-like hosts a path is absolute where it starts at the root, paths are joined behind
/// one separator, and they are the same where they take the same steps; so each is the same as
/// itself.
pub proof fn law_unix_rules()
    ensures
        forall|path: Seq<char>| #[trigger] HostRules::unix().absolute(path) == rooted(path),
        forall|cwd: Seq<char>, path: Seq<char>| #[trigger]
            HostRules::unix().within(cwd, path) == joined(cwd, path),
        forall|a: Seq<char>, b: Seq<char>| #[trigger]
            HostRules::unix().equal(a, b) == same_path(a, b),
        HostRules::unix().equal_to_itself(),
{
}

impl HostPaths {
    /// The rules of Unix-like hosts, for every path.
    pub fn unix() -> (host: HostPaths)
        ensures
            host@ == HostRules::unix(),
    {
        let host = HostPaths { answers: Vec::new(), comparisons: Vec::new() };
        assert(host@.answers == Seq::<Answer>::empty());
        assert(host@.comparisons == Seq::<Comparison>::empty());
        host
    }

    fn answer(&self, path: &str) -> (answer: Option<&PathAnswer>)
        ensures
            match answer {
                Some(a) => answer_on(self@.answers, path@) == Some(a@),
                None => answer_on(self@.answers, path@) is None,
            },
    {
        let ghost all = self@.answers;
        let mut i: usize = 0;
        assert(all.skip(0) == all);
        while i < self.answers.len()
            invariant
                i <= self.answers@.len(),
                all == self@.answers,
                answer_on(all.skip(i as int), path@) == answer_on(all, path@),
            decreases self.answers@.len() - i,
        {
            assert(all.skip(i as int).first() == self.answers@[i as int]@);
            assert(all.skip(i as int).drop_first() == all.skip(i + 1));
            if same(self.answers[i].path.as_str(), path) {
                return Some(&self.answers[i]);
            }
            i = i + 1;
        }
        None
    }

    /// Whether the path is absolute.
    pub fn is_absolute(&self, path: &str) -> (b: bool)
        ensures
            b == self@.absolute(path@),
    {
        match self.answer(path) {
            Some(answer) => answer.absolute,
            None => is_rooted(path),
        }
    }

    /// `path` as seen from the working directory `cwd`.
    pub fn join(&self, cwd: &str, path: &str) -> (whole: String)
        ensures
            whole@ == self@.within(cwd@, path@),
    {
        match self.answer(path) {
            Some(answer) => answer.in_cwd.clone(),
            None => join(cwd, path),
        }
    }

    /// Whether the texts name the same path.
    pub fn is_equal(&self, first: &str, second: &str) -> (r: bool)
        ensures
            r == self@.equal(first@, second@),
    {
        let ghost all = self@.comparisons;
        let mut i: usize = 0;
        assert(all.skip(0) == all);
        while i < self.comparisons.len()
            invariant
                i <= self.comparisons@.len(),
                all == self@.comparisons,
                comparison_of(all.skip(i as int), first@, second@) == comparison_of(
                    all,
                    first@,
                    second@,
                ),
            decreases self.comparisons@.len() - i,
        {
            assert(all.skip(i as int).first() == self.comparisons@[i as int]@);
            assert(all.skip(i as int).drop_first() == all.skip(i + 1));
            if same(self.comparisons[i].first.as_str(), first) && same(
                self.comparisons[i].second.as_str(),
                second,
            ) {
                return self.comparisons[i].same;
            }
            i = i + 1;
        }
        is_same_path(first, second)
    }
}

/// The path starts at the root.
pub open spec fn rooted(path: Seq<char>) -> bool {
    path.len() > 0 && path[0] == '/'
}

/// `path` as seen from `base`: a rooted path stands for itself, any other is appended behind
/// one separator.
pub open spec fn joined(base: Seq<char>, path: Seq<char>) -> Seq<char> {
    if rooted(path) {
        path
    } else if base.len() == 0 || base.last() == '/' {
        base + path
    } else {
        base + seq!['/'] + path
    }
}

/// The names among the pieces of a path: neither empty nor the current directory.
pub open spec fn named(parts: Seq<Seq<char>>) -> Seq<Seq<char>>
    decreases parts.len(),
{
    if parts.len() == 0 {
        parts
    } else if parts.last().len() == 0 || parts.last() == seq!['.'] {
        named(parts.drop_last())
    } else {
        named(parts.drop_last()).push(parts.last())
    }
}

/// The steps that a path takes: its names in order, behind a `.` where the path begins with
/// that one.
pub open spec fn steps(path: Seq<char>) -> Seq<Seq<char>> {
    let parts = pieces(path, '/');
    if parts.len() > 0 && parts.first() == seq!['.'] {
        seq![seq!['.']] + named(parts.drop_first())
    } else {
        named(parts)
    }
}

/// Two texts name the same path: they start at the same place and take the same steps.
pub open spec fn same_path(a: Seq<char>, b: Seq<char>) -> bool {
    rooted(a) == rooted(b) && steps(a) == steps(b)
}

/// Whether the path starts at the root.
pub fn is_rooted(path: &str) -> (b: bool)
    ensures
        b == rooted(path@),
{
    if path.is_empty() {
        false
    } else {
        path.get_char(0) == '/'
    }
}

/// `path` as seen from `base`.
pub fn join(base: &str, path: &str) -> (whole: String)
    ensures
        whole@ == joined(base@, path@),
{
    let mut whole: String = String::new();
    if !is_rooted(path) {
        whole.append(base);
        assert(whole@ == base@);
        let len: usize = base.unicode_len();
        if len > 0 && base.get_char(len - 1) != '/' {
            whole.push('/');
            assert(whole@ == base@ + seq!['/']);
        }
    }
    whole.append(path);
    assert(rooted(path@) ==> whole@ == path@);
    whole
}

fn is_dot(part: &str) -> (b: bool)
    ensures
        b == (part@ == seq!['.']),
{
    let b = part.unicode_len() == 1 && part.get_char(0) == '.';
    assert(b ==> part@ == seq!['.']);
    b
}

/// The steps that `path` takes.
pub fn path_steps(path: &str) -> (list: Vec<String>)
    ensures
        views(list@) == steps(path@),
{
    let parts = split(path, '/');
    let ghost all = views(parts@);
    let mut list: Vec<String> = Vec::new();
    let mut from: usize = 0;
    assert(views(list@) == Seq::<Seq<char>>::empty());
    if parts.len() > 0 && is_dot(parts[0].as_str()) {
        assert(all[0] == parts@[0]@);
        list.push(parts[0].clone());
        assert(views(list@) == seq![seq!['.']]);
        from = 1;
    } else if parts.len() > 0 {
        assert(all[0] == parts@[0]@);
    }
    let ghost lead = views(list@);
    let mut i: usize = from;
    assert(all.subrange(from as int, from as int) == Seq::<Seq<char>>::empty());
    assert(views(list@) == lead + named(all.subrange(from as int, from as int)));
    while i < parts.len()
        invariant
            from <= i <= parts@.len(),
            all == views(parts@),
            views(list@) == lead + named(all.subrange(from as int, i as int)),
        decreases parts@.len() - i,
    {
        let ghost before = list@;
        let ghost prefix = all.subrange(from as int, i + 1);
        assert(prefix.drop_last() == all.subrange(from as int, i as int));
        assert(prefix.last() == parts@[i as int]@);
        if !parts[i].as_str().is_empty() && !is_dot(parts[i].as_str()) {
            list.push(parts[i].clone());
            assert(views(list@) == views(before).push(parts@[i as int]@));
            assert(views(list@) == lead + named(prefix));
        }
        i = i + 1;
    }
    assert(from == 0 ==> all.subrange(0, all.len() as int) == all);
    assert(from == 1 ==> all.subrange(1, all.len() as int) == all.drop_first());
    assert(from == 0 ==> lead + named(all) == named(all));
    list
}

/// Whether two texts name the same path.
pub fn is_same_path(a: &str, b: &str) -> (r: bool)
    ensures
        r == same_path(a@, b@),
{
    if is_rooted(a) != is_rooted(b) {
        return false;
    }
    let va = path_steps(a);
    let vb = path_steps(b);
    assert(views(va@).len() == va@.len() && views(vb@).len() == vb@.len());
    if va.len() != vb.len() {
        return false;
    }
    let mut i: usize = 0;
    while i < va.len()
        invariant
            i <= va@.len() == vb@.len(),
            views(va@) == steps(a@),
            views(vb@) == steps(b@),
            forall|j: int| 0 <= j < i ==> #[trigger] views(va@)[j] == views(vb@)[j],
        decreases va@.len() - i,
    {
        assert(views(va@)[i as int] == va@[i as int]@ && views(vb@)[i as int] == vb@[i as int]@);
        if !same(va[i].as_str(), vb[i].as_str()) {
            return false;
        }
        i = i + 1;
    }
    assert(views(va@) == views(vb@));
    true
}

/// What the host first said of a path counts; where it said nothing, the rules of Unix-like hosts
/// do.
pub proof fn law_first_answer_counts(
    host: HostRules,
    cwd: Seq<char>,
    path: Seq<char>,
    i: int,
)
    ensures
        0 <= i < host.answers.len() && host.answers[i].path == path && (forall|j: int|
            0 <= j < i ==> (#[trigger] host.answers[j]).path != path) ==> {
            &&& host.absolute(path) == host.answers[i].absolute
            &&& host.within(cwd, path) == host.answers[i].in_cwd
        },
        (forall|j: int| 0 <= j < host.answers.len() ==> (#[trigger] host.answers[j]).path != path)
            ==> {
            &&& host.absolute(path) == (path.len() > 0 && path[0] == '/')
            &&& host.within(cwd, path) == joined(cwd, path)
        },
{
    lemma_first_answer(host.answers, path, i);
}

proof fn lemma_first_answer(answers: Seq<Answer>, path: Seq<char>, i: int)
    ensures
        0 <= i < answers.len() && answers[i].path == path && (forall|j: int|
            0 <= j < i ==> (#[trigger] answers[j]).path != path) ==> answer_on(answers, path)
            == Some(answers[i]),
        (forall|j: int| 0 <= j < answers.len() ==> (#[trigger] answers[j]).path != path)
            ==> answer_on(answers, path) is None,
    decreases answers.len(),
{
    if answers.len() > 0 {
        let rest = answers.drop_first();
        lemma_first_answer(rest, path, i - 1);
        assert forall|j: int| 0 <= j < rest.len() implies #[trigger] rest[j] == answers[j + 1] by {}
        if forall|j: int| 0 <= j < answers.len() ==> (#[trigger] answers[j]).path != path {
            assert(answers[0].path != path);
            assert forall|j: int| 0 <= j < rest.len() implies (#[trigger] rest[j]).path != path by {
                assert(rest[j] == answers[j + 1]);
            }
        }
        if 0 < i < answers.len() && answers[i].path == path && (forall|j: int|
            0 <= j < i ==> (#[trigger] answers[j]).path != path) {
            assert(answers[0].path != path);
            assert(rest[i - 1] == answers[i]);
            assert forall|j: int| 0 <= j < i - 1 implies (#[trigger] rest[j]).path != path by {
                assert(rest[j] == answers[j + 1]);
            }
        }
    }
}

/// What the host first said of two paths counts; where it said nothing, the rules of Unix-like
/// hosts do.
pub proof fn law_first_comparison_counts(
    host: HostRules,
    first: Seq<char>,
    second: Seq<char>,
    i: int,
)
    ensures
        0 <= i < host.comparisons.len() && host.comparisons[i].first == first
            && host.comparisons[i].second == second && (forall|j: int|
            0 <= j < i ==> (#[trigger] host.comparisons[j]).first != first
                || host.comparisons[j].second != second) ==> host.equal(first, second)
            == host.comparisons[i].same,
        (forall|j: int|
            0 <= j < host.comparisons.len() ==> (#[trigger] host.comparisons[j]).first != first
                || host.comparisons[j].second != second) ==> host.equal(first, second) == same_path(
            first,
            second,
        ),
{
    lemma_first_comparison(host.comparisons, first, second, i);
}

proof fn lemma_first_comparison(
    all: Seq<Comparison>,
    first: Seq<char>,
    second: Seq<char>,
    i: int,
)
    ensures
        0 <= i < all.len() && all[i].first == first && all[i].second == second && (forall|j: int|
            0 <= j < i ==> (#[trigger] all[j]).first != first || all[j].second != second)
            ==> comparison_of(all, first, second) == Some(all[i]),
        (forall|j: int|
            0 <= j < all.len() ==> (#[trigger] all[j]).first != first || all[j].second != second)
            ==> comparison_of(all, first, second) is None,
    decreases all.len(),
{
    if all.len() > 0 {
        let rest = all.drop_first();
        lemma_first_comparison(rest, first, second, i - 1);
        assert forall|j: int| 0 <= j < rest.len() implies #[trigger] rest[j] == all[j + 1] by {}
        if forall|j: int|
            0 <= j < all.len() ==> (#[trigger] all[j]).first != first || all[j].second != second {
            assert(all[0].first != first || all[0].second != second);
            assert forall|j: int| 0 <= j < rest.len() implies (#[trigger] rest[j]).first != first
                || rest[j].second != second by {
                assert(rest[j] == all[j + 1]);
            }
        }
        if 0 < i < all.len() && all[i].first == first && all[i].second == second && (forall|j: int|
            0 <= j < i ==> (#[trigger] all[j]).first != first || all[j].second != second) {
            assert(all[0].first != first || all[0].second != second);
            assert(rest[i - 1] == all[i]);
            assert forall|j: int| 0 <= j < i - 1 implies (#[trigger] rest[j]).first != first
                || rest[j].second != second by {
                assert(rest[j] == all[j + 1]);
            }
        }
    }
}

/// A path that starts with a slash stands for itself; any other comes behind its directory, with
/// one slash between them where the directory does not end with one or is empty.
pub proof fn law_paths_are_joined_by_one_slash(dir: Seq<char>, name: Seq<char>)
    ensures
        joined(dir, seq!['/'] + name) == seq!['/'] + name,
        name.len() == 0 || name[0] != '/' ==> {
            &&& joined(seq![], name) == name
            &&& joined(dir + seq!['/'], name) == dir + seq!['/'] + name
            &&& dir.len() > 0 && dir.last() != '/' ==> joined(dir, name) == joined(
                dir + seq!['/'],
                name,
            )
        },
{
    assert((seq!['/'] + name)[0] == '/');
    assert((dir + seq!['/']).last() == '/');
    assert(Seq::<char>::empty() + name == name);
}

/// A piece of a path that is a name: neither empty nor the current directory.
pub open spec fn is_name(piece: Seq<char>) -> bool {
    piece.len() > 0 && piece != seq!['.']
}

proof fn lemma_named_is_filter(parts: Seq<Seq<char>>)
    ensures
        named(parts) == parts.filter(|piece: Seq<char>| is_name(piece)),
    decreases parts.len(),
{
    reveal(Seq::filter);
    if parts.len() > 0 {
        lemma_named_is_filter(parts.drop_last());
    }
}

/// The steps of a path are all the names among its pieces, in order, behind a `.` where that is
/// the first piece.
pub proof fn law_steps_are_the_names(path: Seq<char>)
    ensures
        ({
            let names = pieces(path, '/').filter(|piece: Seq<char>| is_name(piece));
            if pieces(path, '/')[0] == seq!['.'] {
                steps(path) == seq![seq!['.']] + names
            } else {
                steps(path) == names
            }
        }),
{
    let parts = pieces(path, '/');
    let f = |piece: Seq<char>| is_name(piece);
    law_pieces_make_up_the_text(path, '/');
    if parts[0] == seq!['.'] {
        let rest = parts.drop_first();
        lemma_named_is_filter(rest);
        assert(parts == seq![parts[0]] + rest);
        Seq::filter_distributes_over_add(seq![parts[0]], rest, f);
        assert(seq![parts[0]].filter(f) == Seq::<Seq<char>>::empty()) by {
            reveal(Seq::filter);
            assert(seq![parts[0]].drop_last() == Seq::<Seq<char>>::empty());
            assert(Seq::<Seq<char>>::empty().filter(f) == Seq::<Seq<char>>::empty());
            assert(!f(seq![parts[0]].last()));
        }
        assert(Seq::<Seq<char>>::empty() + rest.filter(f) == rest.filter(f));
    } else {
        lemma_named_is_filter(parts);
    }
}

/// To name the same path is an equivalence.
pub proof fn law_same_path_is_an_equivalence(a: Seq<char>, b: Seq<char>, c: Seq<char>)
    ensures
        same_path(a, a),
        same_path(a, b) ==> same_path(b, a),
        same_path(a, b) && same_path(b, c) ==> same_path(a, c),
{
}

/// An absolute path is never the same as one that is not.
pub proof fn law_absolute_and_relative_paths_differ(a: Seq<char>, b: Seq<char>)
    requires
        b.len() == 0 || b[0] != '/',
    ensures
        !same_path(seq!['/'] + a, b),
{
    assert((seq!['/'] + a)[0] == '/');
}

/// A proper name of a file or directory.
pub open spec fn proper(name: Seq<char>) -> bool {
    name.len() > 0 && name != seq!['.'] && !name.contains('/')
}

proof fn lemma_pieces_of_names(names: Seq<Seq<char>>)
    requires
        names.len() > 0,
        forall|i: int| 0 <= i < names.len() ==> proper(#[trigger] names[i]),
    ensures
        pieces(rejoined(names, '/'), '/') == names,
    decreases names.len(),
{
    law_text_without_separator_is_one_piece(names[0], '/');
    if names.len() == 1 {
        assert(names == seq![names[0]]);
    } else {
        let rest = names.drop_first();
        assert forall|i: int| 0 <= i < rest.len() implies proper(#[trigger] rest[i]) by {
            assert(rest[i] == names[i + 1]);
        }
        lemma_pieces_of_names(rest);
        law_pieces_on_both_sides(names[0], rejoined(rest, '/'), '/');
        assert(names == seq![names[0]] + rest);
    }
}

proof fn lemma_all_names_are_kept(names: Seq<Seq<char>>)
    requires
        forall|i: int| 0 <= i < names.len() ==> proper(#[trigger] names[i]),
    ensures
        named(names) == names,
    decreases names.len(),
{
    if names.len() > 0 {
        let init = names.drop_last();
        assert forall|i: int| 0 <= i < init.len() implies proper(#[trigger] init[i]) by {
            assert(init[i] == names[i]);
        }
        lemma_all_names_are_kept(init);
        assert(proper(names[names.len() - 1]));
        assert(names == init.push(names.last()));
    }
}

/// Two absolute paths made of proper names are the same exactly where the names are.
pub proof fn law_paths_are_the_same_by_their_names(a: Seq<Seq<char>>, b: Seq<Seq<char>>)
    requires
        a.len() > 0 && b.len() > 0,
        forall|i: int| 0 <= i < a.len() ==> proper(#[trigger] a[i]),
        forall|i: int| 0 <= i < b.len() ==> proper(#[trigger] b[i]),
    ensures
        same_path(seq!['/'] + rejoined(a, '/'), seq!['/'] + rejoined(b, '/')) <==> a == b,
        same_path(rejoined(a, '/'), rejoined(b, '/')) <==> a == b,
{
    lemma_steps_of_names(a);
    lemma_steps_of_names(b);
}

proof fn lemma_steps_of_names(names: Seq<Seq<char>>)
    requires
        names.len() > 0,
        forall|i: int| 0 <= i < names.len() ==> proper(#[trigger] names[i]),
    ensures
        steps(rejoined(names, '/')) == names,
        !rooted(rejoined(names, '/')),
        steps(seq!['/'] + rejoined(names, '/')) == names,
        rooted(seq!['/'] + rejoined(names, '/')),
{
    let text = rejoined(names, '/');
    let empty = Seq::<char>::empty();
    lemma_pieces_of_names(names);
    lemma_all_names_are_kept(names);
    assert(proper(names[0]));
    law_pieces_on_both_sides(empty, text, '/');
    assert(empty + seq!['/'] + text == seq!['/'] + text);
    law_text_without_separator_is_one_piece(empty, '/');
    lemma_named_concat(seq![empty], names);
    assert(named(seq![empty]) == Seq::<Seq<char>>::empty()) by {
        reveal_with_fuel(named, 2);
        assert(seq![empty].drop_last() == Seq::<Seq<char>>::empty());
    }
    assert(Seq::<Seq<char>>::empty() + names == names);
    assert((seq![empty] + names)[0] == empty);
    assert((seq!['/'] + text)[0] == '/');
    assert(text[0] == names[0][0]);
    assert(names[0].contains(names[0][0]));
}

proof fn lemma_named_concat(a: Seq<Seq<char>>, b: Seq<Seq<char>>)
    ensures
        named(a + b) == named(a) + named(b),
    decreases b.len(),
{
    if b.len() == 0 {
        assert(a + b == a);
        assert(named(a) + named(b) == named(a));
    } else {
        let init = b.drop_last();
        lemma_named_concat(a, init);
        assert((a + b).drop_last() == a + init);
        assert((a + b).last() == b.last());
        assert((named(a) + named(init)).push(b.last()) == named(a) + named(init).push(b.last()));
    }
}

/// Neither a doubled slash, nor a `.` between slashes, nor a slash at the end leads elsewhere.
pub proof fn law_slashes_and_dots_lead_nowhere(a: Seq<char>, b: Seq<char>)
    ensures
        same_path(a + seq!['/'] + b, a + seq!['/', '/'] + b),
        same_path(a + seq!['/'] + b, a + seq!['/', '.', '/'] + b),
        a.len() > 0 ==> same_path(a, a + seq!['/']),
{
    let empty = Seq::<char>::empty();
    let dot = seq!['.'];
    let pa = pieces(a, '/');
    let pb = pieces(b, '/');
    law_pieces_make_up_the_text(a, '/');
    law_pieces_on_both_sides(a, b, '/');
    law_text_without_separator_is_one_piece(empty, '/');
    law_text_without_separator_is_one_piece(dot, '/');
    law_pieces_on_both_sides(empty, b, '/');
    law_pieces_on_both_sides(a, empty + seq!['/'] + b, '/');
    law_pieces_on_both_sides(dot, b, '/');
    law_pieces_on_both_sides(a, dot + seq!['/'] + b, '/');
    law_pieces_on_both_sides(a, empty, '/');
    assert(a + seq!['/', '/'] + b == a + seq!['/'] + (empty + seq!['/'] + b));
    assert(a + seq!['/', '.', '/'] + b == a + seq!['/'] + (dot + seq!['/'] + b));
    assert(a + seq!['/'] + empty == a + seq!['/']);
    lemma_skipped(pa, seq![empty], pb);
    lemma_skipped(pa, seq![dot], pb);
    lemma_skipped(pa, seq![empty], seq![]);
    assert(pa + (seq![empty] + pb) == pa + seq![empty] + pb);
    assert(pa + (seq![dot] + pb) == pa + seq![dot] + pb);
    assert(pa + seq![empty] + Seq::<Seq<char>>::empty() == pa + seq![empty]);
    assert(pa + Seq::<Seq<char>>::empty() == pa);
    assert(rooted(a + seq!['/'] + b) == rooted(a + seq!['/', '/'] + b));
    assert(rooted(a + seq!['/'] + b) == rooted(a + seq!['/', '.', '/'] + b));
    assert(a.len() > 0 ==> rooted(a) == rooted(a + seq!['/']));
}

/// A piece that is no name does not count among the steps.
proof fn lemma_skipped(a: Seq<Seq<char>>, piece: Seq<Seq<char>>, b: Seq<Seq<char>>)
    requires
        a.len() > 0,
        piece.len() == 1,
        !is_name(piece[0]),
    ensures
        named(a + piece + b) == named(a + b),
        named((a + piece + b).drop_first()) == named((a + b).drop_first()),
{
    assert(named(piece) == Seq::<Seq<char>>::empty()) by {
        reveal_with_fuel(named, 2);
        assert(piece.drop_last() == Seq::<Seq<char>>::empty());
        assert(piece.last() == piece[0]);
    }
    lemma_named_concat(a + piece, b);
    lemma_named_concat(a, piece);
    lemma_named_concat(a, b);
    assert(named(a) + Seq::<Seq<char>>::empty() == named(a));
    let t = a.drop_first();
    assert((a + piece + b).drop_first() == t + piece + b);
    assert((a + b).drop_first() == t + b);
    lemma_named_concat(t + piece, b);
    lemma_named_concat(t, piece);
    lemma_named_concat(t, b);
    assert(named(t) + Seq::<Seq<char>>::empty() == named(t));
}

/// The contents of the answers and comparisons go item by item.
pub proof fn law_host_paths_go_by_items(host: HostPaths)
    ensures
        host@.answers.len() == host.answers@.len(),
        forall|i: int|
            0 <= i < host.answers@.len() ==> {
                &&& (#[trigger] host@.answers[i]).path == host.answers@[i].path@
                &&& host@.answers[i].absolute == host.answers@[i].absolute
                &&& host@.answers[i].in_cwd == host.answers@[i].in_cwd@
            },
        host@.comparisons.len() == host.comparisons@.len(),
        forall|i: int|
            0 <= i < host.comparisons@.len() ==> {
                &&& (#[trigger] host@.comparisons[i]).first == host.comparisons@[i].first@
                &&& host@.comparisons[i].second == host.comparisons@[i].second@
                &&& host@.comparisons[i].same == host.comparisons@[i].same
            },
{
}

} // verus!
