//! Paths as texts: their parts, how they are joined and what they come to.
use vstd::prelude::*;
use crate::text;

verus! {

/// The pieces of a text between its slashes.
pub open spec fn pieces(s: Seq<char>) -> Seq<Seq<char>>
    decreases s.len(),
{
    if s.len() == 0 {
        seq![Seq::<char>::empty()]
    } else {
        let before = pieces(s.drop_last());
        if s.last() == '/' {
            before.push(Seq::<char>::empty())
        } else {
            before.drop_last().push(before.last().push(s.last()))
        }
    }
}

/// Whether a text holds no slash.
pub open spec fn slashless(s: Seq<char>) -> bool {
    forall|i: int| 0 <= i < s.len() ==> #[trigger] s[i] != '/'
}

/// There is at least one piece.
pub proof fn lemma_pieces_some(s: Seq<char>)
    ensures
        pieces(s).len() > 0,
    decreases s.len(),
{
    if s.len() > 0 {
        lemma_pieces_some(s.drop_last());
    }
}

/// No piece holds a slash.
pub proof fn lemma_pieces_slashless(s: Seq<char>)
    ensures
        forall|i: int| 0 <= i < pieces(s).len() ==> slashless(#[trigger] pieces(s)[i]),
    decreases s.len(),
{
    lemma_pieces_some(s);
    if s.len() > 0 {
        lemma_pieces_some(s.drop_last());
        lemma_pieces_slashless(s.drop_last());
        let before = pieces(s.drop_last());
        assert forall|i: int| 0 <= i < pieces(s).len() implies slashless(
            #[trigger] pieces(s)[i],
        ) by {
            if i < before.len() - 1 {
                assert(slashless(before[i]));
            } else if i == before.len() - 1 {
                assert(slashless(before[i]));
                assert(before.last() == before[i]);
            }
        }
    }
}

/// A piece behind a slash is one more piece.
proof fn lemma_pieces_append(a: Seq<char>, b: Seq<char>)
    requires
        slashless(b),
    ensures
        pieces(a + seq!['/'] + b) == pieces(a).push(b),
    decreases b.len(),
{
    let whole = a + seq!['/'] + b;
    if b.len() == 0 {
        assert(whole.drop_last() =~= a);
        assert(whole.last() == '/');
        assert(b =~= Seq::<char>::empty());
    } else {
        assert(whole.drop_last() =~= a + seq!['/'] + b.drop_last());
        assert(whole.last() == b.last());
        assert(b[b.len() - 1] != '/');
        assert forall|i: int| 0 <= i < b.drop_last().len() implies #[trigger] b.drop_last()[i]
            != '/' by {
            assert(b[i] != '/');
        }
        lemma_pieces_append(a, b.drop_last());
        let before = pieces(whole.drop_last());
        assert(before.drop_last() =~= pieces(a));
        assert(before.last() =~= b.drop_last());
        assert(b.drop_last().push(b.last()) =~= b);
    }
}

/// A text without slashes is one piece.
proof fn lemma_one_piece(s: Seq<char>)
    requires
        slashless(s),
    ensures
        pieces(s) == seq![s],
    decreases s.len(),
{
    if s.len() == 0 {
        assert(s =~= Seq::<char>::empty());
    } else {
        assert forall|i: int| 0 <= i < s.drop_last().len() implies #[trigger] s.drop_last()[i]
            != '/' by {
            assert(s[i] != '/');
        }
        lemma_one_piece(s.drop_last());
        assert(s[s.len() - 1] != '/');
        assert(s.drop_last().push(s.last()) =~= s);
        assert(pieces(s) =~= seq![s]);
    }
}

/// A slash in front makes an empty piece in front.
proof fn lemma_pieces_root(s: Seq<char>)
    ensures
        pieces(seq!['/'] + s) == seq![Seq::<char>::empty()] + pieces(s),
    decreases s.len(),
{
    let whole = seq!['/'] + s;
    reveal_with_fuel(pieces, 2);
    if s.len() == 0 {
        assert(whole.drop_last() =~= Seq::<char>::empty());
        assert(pieces(whole) =~= seq![Seq::<char>::empty()] + pieces(s));
    } else {
        assert(whole.drop_last() =~= seq!['/'] + s.drop_last());
        assert(whole.last() == s.last());
        lemma_pieces_root(s.drop_last());
        lemma_pieces_some(s.drop_last());
        let before = pieces(whole.drop_last());
        assert(before.last() == pieces(s.drop_last()).last());
        assert(pieces(whole) =~= seq![Seq::<char>::empty()] + pieces(s));
    }
}

/// Whether a piece names something: it is not empty, and it neither stays nor goes up.
pub open spec fn names(piece: Seq<char>) -> bool {
    piece.len() > 0 && piece != "."@ && piece != ".."@
}

/// The way that pieces lead: a name goes down, two dots go up, and nothing goes above the top.
pub open spec fn resolve(steps: Seq<Seq<char>>) -> Seq<Seq<char>>
    decreases steps.len(),
{
    if steps.len() == 0 {
        Seq::empty()
    } else {
        let before = resolve(steps.drop_last());
        let step = steps.last();
        if step.len() == 0 || step == "."@ {
            before
        } else if step == ".."@ {
            if before.len() == 0 {
                before
            } else {
                before.drop_last()
            }
        } else {
            before.push(step)
        }
    }
}

/// Where a path leads: from the root or not, and through which names.
#[verifier::ext_equal]
pub struct PathView {
    pub absolute: bool,
    pub parts: Seq<Seq<char>>,
}

/// Whether a path starts at the root.
pub open spec fn is_absolute(path: Seq<char>) -> bool {
    path.len() > 0 && path[0] == '/'
}

/// Where a path leads.
pub open spec fn normalize(path: Seq<char>) -> PathView {
    PathView { absolute: is_absolute(path), parts: resolve(pieces(path)) }
}

impl PathView {
    /// Whether every part names something, without a slash in it.
    pub open spec fn wf(self) -> bool {
        forall|i: int|
            0 <= i < self.parts.len() ==> names(#[trigger] self.parts[i]) && slashless(
                self.parts[i],
            )
    }

    /// The path as a text.
    pub open spec fn render(self) -> Seq<char> {
        if self.absolute {
            "/"@ + text::join(self.parts, "/"@)
        } else {
            text::join(self.parts, "/"@)
        }
    }

    /// Whether the path leads through another to its end or beyond.
    pub open spec fn within(self, root: PathView) -> bool {
        self.absolute == root.absolute && root.parts.is_prefix_of(self.parts)
    }

    /// The rest of the way behind another path.
    pub open spec fn beyond(self, root: PathView) -> Seq<Seq<char>> {
        self.parts.skip(root.parts.len() as int)
    }
}

/// The parts of a way name something.
proof fn lemma_resolve_wf(steps: Seq<Seq<char>>)
    requires
        forall|i: int| 0 <= i < steps.len() ==> slashless(#[trigger] steps[i]),
    ensures
        forall|i: int|
            0 <= i < resolve(steps).len() ==> names(#[trigger] resolve(steps)[i]) && slashless(
                resolve(steps)[i],
            ),
    decreases steps.len(),
{
    if steps.len() > 0 {
        let before = steps.drop_last();
        assert forall|i: int| 0 <= i < before.len() implies slashless(#[trigger] before[i]) by {
            assert(slashless(steps[i]));
        }
        lemma_resolve_wf(before);
        assert(slashless(steps[steps.len() - 1]));
        assert forall|i: int| 0 <= i < resolve(steps).len() implies names(
            #[trigger] resolve(steps)[i],
        ) && slashless(resolve(steps)[i]) by {
            if i < resolve(before).len() {
                assert(names(resolve(before)[i]));
            }
        }
    }
}

/// Where a path leads, nothing stays, goes up or is empty.
pub proof fn law_normalized_paths_only_go_down(path: Seq<char>)
    ensures
        normalize(path).wf(),
{
    lemma_pieces_slashless(path);
    lemma_resolve_wf(pieces(path));
}

/// Names lead where they say.
proof fn lemma_resolve_names(steps: Seq<Seq<char>>)
    requires
        forall|i: int| 0 <= i < steps.len() ==> names(#[trigger] steps[i]),
    ensures
        resolve(steps) == steps,
        resolve(seq![Seq::<char>::empty()] + steps) == steps,
    decreases steps.len(),
{
    let rooted = seq![Seq::<char>::empty()] + steps;
    reveal_with_fuel(resolve, 2);
    if steps.len() == 0 {
        assert(rooted.drop_last() =~= Seq::<Seq<char>>::empty());
        assert(resolve(rooted) =~= steps);
        assert(resolve(steps) =~= steps);
    } else {
        let before = steps.drop_last();
        assert forall|i: int| 0 <= i < before.len() implies names(#[trigger] before[i]) by {
            assert(names(steps[i]));
        }
        lemma_resolve_names(before);
        assert(names(steps[steps.len() - 1]));
        assert(rooted.drop_last() =~= seq![Seq::<char>::empty()] + before);
        assert(rooted.last() == steps.last());
        assert(before.push(steps.last()) =~= steps);
    }
}

/// The pieces of joined parts are the parts.
proof fn lemma_pieces_of_join(parts: Seq<Seq<char>>)
    requires
        parts.len() > 0,
        forall|i: int| 0 <= i < parts.len() ==> slashless(#[trigger] parts[i]),
    ensures
        pieces(text::join(parts, "/"@)) == parts,
    decreases parts.len(),
{
    reveal_strlit("/");
    assert("/"@ =~= seq!['/']);
    assert(slashless(parts[parts.len() - 1]));
    if parts.len() == 1 {
        lemma_one_piece(parts[0]);
        assert(text::join(parts, "/"@) == parts[0]);
        assert(parts =~= seq![parts[0]]);
    } else {
        let before = parts.drop_last();
        assert forall|i: int| 0 <= i < before.len() implies slashless(#[trigger] before[i]) by {
            assert(slashless(parts[i]));
        }
        lemma_pieces_of_join(before);
        lemma_pieces_append(text::join(before, "/"@), parts.last());
        assert(before.push(parts.last()) =~= parts);
    }
}

/// A path that says where it leads leads there: to write it out and to normalize it again changes
/// nothing.
pub proof fn law_rendered_paths_lead_where_they_say(view: PathView)
    requires
        view.wf(),
    ensures
        normalize(view.render()) == view,
{
    reveal_strlit("/");
    assert("/"@ =~= seq!['/']);
    assert forall|i: int| 0 <= i < view.parts.len() implies names(#[trigger] view.parts[i]) by {}
    assert forall|i: int| 0 <= i < view.parts.len() implies slashless(
        #[trigger] view.parts[i],
    ) by {}
    lemma_resolve_names(view.parts);
    let joined = text::join(view.parts, "/"@);
    if view.parts.len() == 0 {
        assert(joined =~= Seq::<char>::empty());
        assert(view.parts =~= Seq::<Seq<char>>::empty());
        assert(pieces(Seq::<char>::empty()) == seq![Seq::<char>::empty()]);
        assert(seq![Seq::<char>::empty()].drop_last() =~= Seq::<Seq<char>>::empty());
        assert(resolve(seq![Seq::<char>::empty()]) =~= view.parts);
        if view.absolute {
            lemma_pieces_root(joined);
            let twice = seq![Seq::<char>::empty()] + seq![Seq::<char>::empty()];
            assert(twice.drop_last() =~= seq![Seq::<char>::empty()]);
            assert(resolve(twice) =~= view.parts);
        }
    } else {
        lemma_pieces_of_join(view.parts);
        if view.absolute {
            lemma_pieces_root(joined);
        } else {
            assert(names(view.parts[0]) && slashless(view.parts[0]));
            lemma_join_starts(view.parts);
        }
    }
}

/// A joined text starts as its first part does.
proof fn lemma_join_starts(parts: Seq<Seq<char>>)
    requires
        parts.len() > 0,
        parts[0].len() > 0,
    ensures
        text::join(parts, "/"@).len() > 0,
        text::join(parts, "/"@)[0] == parts[0][0],
    decreases parts.len(),
{
    if parts.len() > 1 {
        lemma_join_starts(parts.drop_last());
    }
}

/// A path, followed to where it leads.
#[derive(Debug, PartialEq, Eq)]
pub struct NormalPath {
    pub absolute: bool,
    pub parts: Vec<String>,
}

impl View for NormalPath {
    type V = PathView;

    open spec fn view(&self) -> PathView {
        PathView { absolute: self.absolute, parts: text::views(self.parts@) }
    }
}

/// The pieces of a text between its slashes.
pub fn pieces_of(path: &str) -> (r: Vec<String>)
    ensures
        text::views(r@) == pieces(path@),
{
    let chars = text::chars_of(path);
    let mut done: Vec<String> = Vec::new();
    let mut current = String::new();
    let mut i: usize = 0;
    assert(chars@.take(0) =~= Seq::<char>::empty());
    assert(text::views(done@).push(current@) =~= pieces(chars@.take(0)));
    while i < chars.len()
        invariant
            i <= chars@.len(),
            text::views(done@).push(current@) == pieces(chars@.take(i as int)),
        decreases chars@.len() - i,
    {
        let c = chars[i];
        let ghost before = text::views(done@);
        let ghost piece = current@;
        proof {
            assert(chars@.take(i + 1).drop_last() =~= chars@.take(i as int));
            assert(chars@.take(i + 1).last() == c);
            assert(before.push(piece).drop_last() =~= before);
        }
        if c == '/' {
            done.push(current);
            current = String::new();
            assert(text::views(done@) =~= before.push(piece));
            assert(current@ =~= Seq::<char>::empty());
        } else {
            current.push(c);
        }
        i = i + 1;
    }
    let ghost before = text::views(done@);
    done.push(current);
    assert(text::views(done@) =~= before.push(current@));
    assert(chars@.take(i as int) =~= chars@);
    done
}

/// Whether a path starts at the root.
pub fn absolute(path: &str) -> (r: bool)
    ensures
        r == is_absolute(path@),
{
    let chars = text::chars_of(path);
    chars.len() > 0 && chars[0] == '/'
}

/// Where a path leads.
pub fn normalize_absolute_path(path: &str) -> (r: NormalPath)
    ensures
        r@ == normalize(path@),
        r@.wf(),
{
    let steps = pieces_of(path);
    let ghost all = text::views(steps@);
    let mut parts: Vec<String> = Vec::new();
    let mut i: usize = 0;
    assert(all.take(0) =~= Seq::<Seq<char>>::empty());
    assert(text::views(parts@) =~= resolve(all.take(0)));
    while i < steps.len()
        invariant
            i <= steps@.len(),
            all == text::views(steps@),
            text::views(parts@) == resolve(all.take(i as int)),
        decreases steps@.len() - i,
    {
        let step = steps[i].as_str();
        let ghost before = text::views(parts@);
        proof {
            assert(all.take(i + 1).drop_last() =~= all.take(i as int));
            assert(all.take(i + 1).last() == step@);
        }
        if step.is_empty() || text::same_text(step, ".") {
        } else if text::same_text(step, "..") {
            if parts.len() > 0 {
                let _up = parts.pop();
                assert(text::views(parts@) =~= before.drop_last());
            }
        } else {
            parts.push(step.to_owned());
            assert(text::views(parts@) =~= before.push(step@));
        }
        i = i + 1;
    }
    proof {
        assert(all.take(i as int) =~= all);
        law_normalized_paths_only_go_down(path@);
    }
    NormalPath { absolute: absolute(path), parts }
}

impl NormalPath {
    /// The path as a text.
    pub fn display(&self) -> (r: String)
        ensures
            r@ == self@.render(),
    {
        let joined = text::joined(&self.parts, "/");
        if self.absolute {
            text::concat2("/", joined.as_str())
        } else {
            joined
        }
    }

    /// The rest of the way behind another path, where the path leads through it.
    pub fn strip_prefix(&self, root: &NormalPath) -> (r: Option<Vec<String>>)
        ensures
            match r {
                Some(rest) => self@.within(root@) && text::views(rest@) == self@.beyond(root@),
                None => !self@.within(root@),
            },
    {
        if self.absolute != root.absolute || root.parts.len() > self.parts.len() {
            return None;
        }
        let mut i: usize = 0;
        while i < root.parts.len()
            invariant
                i <= root.parts@.len() <= self.parts@.len(),
                forall|k: int| 0 <= k < i ==> self@.parts[k] == root@.parts[k],
            decreases root.parts@.len() - i,
        {
            if !text::same_text(self.parts[i].as_str(), root.parts[i].as_str()) {
                proof {
                    assert(self@.parts[i as int] != root@.parts[i as int]);
                    if root@.parts.is_prefix_of(self@.parts) {
                        assert(self@.parts.take(root@.parts.len() as int)[i as int]
                            == root@.parts[i as int]);
                    }
                }
                return None;
            }
            i = i + 1;
        }
        assert(root@.parts =~= self@.parts.take(root@.parts.len() as int));
        let ghost from = i as int;
        let mut rest: Vec<String> = Vec::new();
        while i < self.parts.len()
            invariant
                0 <= from <= i <= self.parts@.len(),
                text::views(rest@) == self@.parts.subrange(from, i as int),
            decreases self.parts@.len() - i,
        {
            let ghost before = text::views(rest@);
            rest.push(self.parts[i].clone());
            assert(text::views(rest@) =~= before.push(self@.parts[i as int]));
            assert(self@.parts.subrange(from, i + 1) =~= before.push(self@.parts[i as int]));
            i = i + 1;
        }
        assert(self@.parts.subrange(from, self@.parts.len() as int) =~= self@.beyond(root@));
        Some(rest)
    }
}

/// A path behind another; one from the root stands alone.
pub open spec fn joined_path(base: Seq<char>, rest: Seq<char>) -> Seq<char> {
    if is_absolute(rest) || base.len() == 0 {
        rest
    } else if base.last() == '/' {
        base + rest
    } else {
        base + "/"@ + rest
    }
}

/// A path behind another; one from the root stands alone.
pub fn join(base: &str, rest: &str) -> (r: String)
    ensures
        r@ == joined_path(base@, rest@),
{
    let chars = text::chars_of(base);
    if absolute(rest) || chars.len() == 0 {
        return rest.to_owned();
    }
    if chars[chars.len() - 1] == '/' {
        text::concat2(base, rest)
    } else {
        text::concat3(base, "/", rest)
    }
}

/// A path from the root: the path itself, or the one behind the current directory.
pub open spec fn rooted(path: Seq<char>, cwd: Seq<char>) -> Seq<char> {
    if is_absolute(path) {
        path
    } else {
        joined_path(cwd, path)
    }
}

/// The pieces on both sides of a slash.
proof fn lemma_pieces_concat(a: Seq<char>, b: Seq<char>)
    ensures
        pieces(a + seq!['/'] + b) == pieces(a) + pieces(b),
    decreases b.len(),
{
    let whole = a + seq!['/'] + b;
    lemma_pieces_some(a);
    lemma_pieces_some(b);
    if b.len() == 0 {
        assert(whole.drop_last() =~= a);
        assert(pieces(a).push(Seq::<char>::empty()) =~= pieces(a) + pieces(b));
    } else {
        assert(whole.drop_last() =~= a + seq!['/'] + b.drop_last());
        assert(whole.last() == b.last());
        lemma_pieces_concat(a, b.drop_last());
        lemma_pieces_some(b.drop_last());
        let before = pieces(whole.drop_last());
        assert(before.last() == pieces(b.drop_last()).last());
        assert(pieces(whole) =~= pieces(a) + pieces(b));
    }
}

/// Names behind a way lead on from where it ends.
proof fn lemma_resolve_onwards(steps: Seq<Seq<char>>, more: Seq<Seq<char>>)
    requires
        forall|i: int| 0 <= i < more.len() ==> names(#[trigger] more[i]),
    ensures
        resolve(steps + more) == resolve(steps) + more,
    decreases more.len(),
{
    if more.len() == 0 {
        assert(steps + more =~= steps);
        assert(resolve(steps) + more =~= resolve(steps));
    } else {
        let before = more.drop_last();
        assert forall|i: int| 0 <= i < before.len() implies names(#[trigger] before[i]) by {
            assert(names(more[i]));
        }
        lemma_resolve_onwards(steps, before);
        assert(names(more[more.len() - 1]));
        assert((steps + more).drop_last() =~= steps + before);
        assert((resolve(steps) + before).push(more.last()) =~= resolve(steps) + more);
    }
}

/// A path that names its way down from a base leads there from where the base leads.
pub proof fn law_joined_paths_go_on_from_the_base(base: Seq<char>, rest: Seq<Seq<char>>)
    requires
        base.len() > 0,
        (PathView { absolute: false, parts: rest }).wf(),
    ensures
        normalize(joined_path(base, text::join(rest, "/"@))) == (PathView {
            absolute: is_absolute(base),
            parts: normalize(base).parts + rest,
        }),
{
    reveal_strlit("/");
    assert("/"@ =~= seq!['/']);
    let view = PathView { absolute: false, parts: rest };
    assert forall|i: int| 0 <= i < rest.len() implies names(#[trigger] rest[i]) && slashless(
        rest[i],
    ) by {
        assert(names(view.parts[i]));
    }
    let tail = text::join(rest, "/"@);
    let whole = joined_path(base, tail);
    if rest.len() == 0 {
        lemma_pieces_concat(base, tail);
        assert(normalize(base).parts + rest =~= normalize(base).parts);
        if base.last() == '/' {
            assert(whole =~= base);
        } else {
            assert(whole =~= base + seq!['/'] + tail);
            assert(pieces(whole).last() == Seq::<char>::empty());
            assert(pieces(whole).drop_last() =~= pieces(base));
        }
    } else {
        lemma_join_starts(rest);
        assert(slashless(rest[0]));
        assert(rest[0][0] != '/');
        assert(!is_absolute(tail));
        lemma_pieces_of_join(rest);
        lemma_resolve_onwards(pieces(base), rest);
        if base.last() == '/' {
            let short = base.drop_last();
            assert(base =~= short + seq!['/']);
            assert(whole =~= short + seq!['/'] + tail);
            lemma_pieces_concat(short, tail);
            lemma_resolve_onwards(pieces(short), rest);
            assert(pieces(base) == pieces(short).push(Seq::<char>::empty()));
            assert(pieces(base).drop_last() =~= pieces(short));
            assert(resolve(pieces(base)) == resolve(pieces(short)));
        } else {
            lemma_pieces_concat(base, tail);
        }
    }
}

/// A step goes down, one dot stays, and two dots go up as far as there is something above.
pub proof fn law_steps_are_taken_in_turn(steps: Seq<Seq<char>>, name: Seq<char>)
    ensures
        resolve(steps.push(Seq::empty())) == resolve(steps),
        resolve(steps.push("."@)) == resolve(steps),
        resolve(steps).len() > 0 ==> resolve(steps.push(".."@)) == resolve(steps).drop_last(),
        resolve(steps).len() == 0 ==> resolve(steps.push(".."@)).len() == 0,
        name.len() > 0 && name != "."@ && name != ".."@ ==> resolve(steps.push(name)) == resolve(
            steps,
        ).push(name),
{
    reveal_strlit(".");
    reveal_strlit("..");
    assert("."@.len() == 1);
    assert(".."@.len() == 2);
    assert(steps.push(Seq::<char>::empty()).drop_last() =~= steps);
    assert(steps.push("."@).drop_last() =~= steps);
    assert(steps.push(".."@).drop_last() =~= steps);
    assert(steps.push(name).drop_last() =~= steps);
}

/// The pieces of a path are what its slashes part.
pub proof fn law_pieces_are_parted_by_slashes(s: Seq<char>, c: char)
    ensures
        pieces(Seq::empty()) == seq![Seq::<char>::empty()],
        pieces(s.push('/')) == pieces(s).push(Seq::empty()),
        pieces(s).len() > 0,
        c != '/' ==> pieces(s.push(c)) == pieces(s).drop_last().push(pieces(s).last().push(c)),
    decreases s.len(),
{
    assert(s.push('/').drop_last() =~= s);
    assert(s.push(c).drop_last() =~= s);
    if s.len() > 0 {
        law_pieces_are_parted_by_slashes(s.drop_last(), s.last());
    }
}

/// A path lies within another where it starts with all its parts, and what is beyond are the rest.
pub proof fn law_paths_lie_within_their_start(root: PathView, rest: Seq<Seq<char>>, other: PathView)
    ensures
        ({
            let path = PathView { absolute: root.absolute, parts: root.parts + rest };
            &&& path.within(root)
            &&& path.beyond(root) == rest
        }),
        other.within(root) ==> other.absolute == root.absolute && other.parts == root.parts
            + other.beyond(root),
{
    let path = PathView { absolute: root.absolute, parts: root.parts + rest };
    assert(path.beyond(root) =~= rest);
    if other.within(root) {
        assert(other.parts =~= root.parts + other.beyond(root));
    }
}

/// A path that starts at the root stays as it is; any other goes on from where one stands.
pub proof fn law_paths_start_somewhere(path: Seq<char>, cwd: Seq<char>)
    ensures
        path.len() > 0 && path[0] == '/' ==> rooted(path, cwd) == path && joined_path(cwd, path)
            == path,
        (path.len() == 0 || path[0] != '/') && cwd.len() > 0 && cwd.last() != '/' ==> rooted(
            path,
            cwd,
        ) == cwd + "/"@ + path,
        (path.len() == 0 || path[0] != '/') && cwd.len() > 0 && cwd.last() == '/' ==> rooted(
            path,
            cwd,
        ) == cwd + path,
        cwd.len() == 0 ==> rooted(path, cwd) == path,
        normalize(path).absolute <==> path.len() > 0 && path[0] == '/',
{
}

} // verus!
