//! Directory paths as sequences of names.
//!
//! A path is written with `/` between its names. It is brought to a clean form
//! once, when it is read: empty pieces and `.` pieces are dropped, so that
//! `/a//b/./c/` and `/a/b/c` are the same directory. A `..` piece is kept as a
//! name and is not resolved.

use vstd::prelude::*;
use vstd::std_specs::iter::IteratorSpec;
use vstd::string::StringExecFns;
use crate::text::{lemma_texts_push, text_eq, texts};

verus! {

broadcast use vstd::string::group_string_axioms;

/// The mathematical value of a directory path.
pub struct PathView {
    /// Whether the path starts at the root.
    pub absolute: bool,
    /// The names below the starting point, outermost first.
    pub segments: Seq<Seq<char>>,
}

/// Whether a piece of a path is kept as a name.
pub open spec fn is_kept(piece: Seq<char>) -> bool {
    piece.len() > 0 && piece != seq!['.']
}

/// Whether a sequence of characters can stand as one name of a path.
pub open spec fn is_name(piece: Seq<char>) -> bool {
    is_kept(piece) && !piece.contains('/')
}

/// The pieces of a text between its `/` characters. There is always at least
/// one piece, and a piece may be empty.
pub open spec fn pieces(text: Seq<char>) -> Seq<Seq<char>>
    decreases text.len(),
{
    if text.len() == 0 {
        seq![Seq::<char>::empty()]
    } else {
        let before = pieces(text.drop_last());
        if text.last() == '/' {
            before.push(Seq::<char>::empty())
        } else {
            before.update(before.len() - 1, before.last().push(text.last()))
        }
    }
}

/// The pieces that are kept as names, in order.
pub open spec fn kept(all: Seq<Seq<char>>) -> Seq<Seq<char>>
    decreases all.len(),
{
    if all.len() == 0 {
        all
    } else if is_kept(all.last()) {
        kept(all.drop_last()).push(all.last())
    } else {
        kept(all.drop_last())
    }
}

/// The path that a text denotes.
pub open spec fn path_of_text(text: Seq<char>) -> PathView {
    PathView { absolute: text.len() > 0 && text[0] == '/', segments: kept(pieces(text)) }
}

/// The names of a path written with `/` between them.
pub open spec fn joined(segments: Seq<Seq<char>>) -> Seq<char>
    decreases segments.len(),
{
    if segments.len() == 0 {
        Seq::<char>::empty()
    } else if segments.len() == 1 {
        segments[0]
    } else {
        joined(segments.drop_last()).push('/') + segments.last()
    }
}

impl PathView {
    /// Every segment is a name.
    pub open spec fn clean(self) -> bool {
        forall|i: int| 0 <= i < self.segments.len() ==> is_name(#[trigger] self.segments[i])
    }

    /// The number of names below the starting point.
    pub open spec fn depth(self) -> nat {
        self.segments.len()
    }

    /// The ancestor that keeps the first `depth` names. The ancestor at the
    /// path's own depth is the path itself, the one at depth 0 its starting
    /// point.
    pub open spec fn ancestor(self, depth: int) -> PathView {
        PathView { absolute: self.absolute, segments: self.segments.take(depth) }
    }

    /// The directory that contains this one, if there is one.
    pub open spec fn parent(self) -> Option<PathView> {
        if self.segments.len() == 0 {
            None
        } else {
            Some(self.ancestor(self.segments.len() - 1))
        }
    }

    /// Whether `self` is `other` or one of the directories above it.
    pub open spec fn contains(self, other: PathView) -> bool {
        self.segments.len() <= other.segments.len() && self == other.ancestor(
            self.segments.len() as int,
        )
    }

    /// The text of the path in its clean form.
    pub open spec fn text(self) -> Seq<char> {
        if self.absolute {
            seq!['/'] + joined(self.segments)
        } else {
            joined(self.segments)
        }
    }
}

/// A directory path in clean form.
#[derive(Debug, PartialEq, Eq)]
pub struct DirPath {
    absolute: bool,
    segments: Vec<String>,
}

impl View for DirPath {
    type V = PathView;

    closed spec fn view(&self) -> PathView {
        PathView { absolute: self.absolute, segments: texts(self.segments@) }
    }
}

/// No piece of a text holds a `/`.
pub proof fn lemma_pieces_hold_no_separator(text: Seq<char>)
    ensures
        pieces(text).len() >= 1,
        forall|i: int| 0 <= i < pieces(text).len() ==> !(#[trigger] pieces(text)[i]).contains('/'),
    decreases text.len(),
{
    if text.len() > 0 {
        lemma_pieces_hold_no_separator(text.drop_last());
        assert(pieces(text.drop_last()).len() >= 1);
    }
}

/// Adds the piece of a text between two positions to the names, if it is one
/// that is kept.
fn keep_piece(segments: &mut Vec<String>, text: &str, start: usize, end: usize)
    requires
        start <= end <= text@.len(),
        forall|k: int| start <= k < end ==> text@[k] != '/',
        forall|k: int| 0 <= k < old(segments).len() ==> is_name(#[trigger] old(segments)[k]@),
    ensures
        texts(final(segments)@) == if is_kept(text@.subrange(start as int, end as int)) {
            texts(old(segments)@).push(text@.subrange(start as int, end as int))
        } else {
            texts(old(segments)@)
        },
        forall|k: int| 0 <= k < final(segments).len() ==> is_name(#[trigger] final(segments)[k]@),
{
    let piece = text.substring_char(start, end);
    proof {
        reveal_strlit(".");
        assert("."@ =~= seq!['.']);
    }
    if piece.unicode_len() > 0 && !text_eq(piece, ".") {
        let name = piece.to_owned();
        proof {
            lemma_texts_push(segments@, name);
        }
        segments.push(name);
    }
}

impl DirPath {
    /// Every path is clean.
    #[verifier::type_invariant]
    pub open spec fn well_formed(self) -> bool {
        self@.clean()
    }

    /// Reads a path from its text.
    pub fn parse(text: &str) -> (path: DirPath)
        ensures
            path@ == path_of_text(text@),
            path@.clean(),
    {
        let len = text.unicode_len();
        let mut segments: Vec<String> = Vec::new();
        let mut absolute = false;
        let mut start: usize = 0;
        let mut i: usize = 0;
        let mut rest = text.chars();
        loop
            invariant
                len == text@.len(),
                start <= i <= len,
                rest.remaining() == text@.skip(i as int),
                absolute == (i > 0 && text@[0] == '/'),
                pieces(text@.take(i as int)).len() >= 1,
                pieces(text@.take(i as int)).last() == text@.subrange(start as int, i as int),
                kept(pieces(text@.take(i as int)).drop_last()) == texts(segments@),
                forall|k: int| start <= k < i ==> text@[k] != '/',
                forall|k: int| 0 <= k < segments.len() ==> is_name(#[trigger] segments[k]@),
            ensures
                i == len,
            decreases len - i,
        {
            match rest.next() {
                Some(c) => {
                    let ghost head = text@.take(i as int);
                    proof {
                        assert(text@.take(i + 1).drop_last() =~= head);
                    }
                    if c == '/' {
                        if i == 0 {
                            absolute = true;
                        }
                        proof {
                            assert(pieces(text@.take(i + 1)).drop_last() =~= pieces(head));
                            assert(pieces(head) =~= pieces(head).drop_last().push(
                                text@.subrange(start as int, i as int),
                            ));
                            lemma_kept_push(
                                pieces(head).drop_last(),
                                text@.subrange(start as int, i as int),
                            );
                        }
                        keep_piece(&mut segments, text, start, i);
                        start = i + 1;
                    } else {
                        proof {
                            let before = pieces(head);
                            assert(pieces(text@.take(i + 1)).drop_last() =~= before.drop_last());
                        }
                    }
                    i = i + 1;
                },
                None => {
                    break ;
                },
            }
        }
        proof {
            assert(text@.take(len as int) =~= text@);
            assert(pieces(text@) =~= pieces(text@).drop_last().push(
                text@.subrange(start as int, len as int),
            ));
            lemma_kept_push(pieces(text@).drop_last(), text@.subrange(start as int, len as int));
        }
        keep_piece(&mut segments, text, start, len);
        DirPath { absolute, segments }
    }

    /// Whether the path starts at the root.
    pub fn is_absolute(&self) -> (absolute: bool)
        ensures
            absolute == self@.absolute,
    {
        self.absolute
    }

    /// The number of names below the starting point.
    pub fn depth(&self) -> (depth: usize)
        ensures
            depth == self@.depth(),
    {
        self.segments.len()
    }

    /// Whether this path is the ancestor of `other` that keeps its first
    /// `depth` names.
    pub(crate) fn is_ancestor_at(&self, other: &DirPath, depth: usize) -> (same: bool)
        requires
            depth <= other@.depth(),
        ensures
            same == (self@ == other@.ancestor(depth as int)),
    {
        if self.absolute != other.absolute || self.segments.len() != depth {
            assert(other@.ancestor(depth as int).segments.len() == depth);
            return false;
        }
        let mut i: usize = 0;
        while i < depth
            invariant
                i <= depth <= other.segments.len(),
                self.segments.len() == depth,
                self.absolute == other.absolute,
                forall|k: int| 0 <= k < i ==> self.segments[k]@ == other.segments[k]@,
            decreases depth - i,
        {
            if self.segments[i] != other.segments[i] {
                assert(self@.segments[i as int] != other@.ancestor(depth as int).segments[i as int]);
                return false;
            }
            i = i + 1;
        }
        assert(self@.segments =~= other@.ancestor(depth as int).segments);
        true
    }

    /// Whether two paths are the same directory.
    pub fn same_as(&self, other: &DirPath) -> (same: bool)
        ensures
            same == (self@ == other@),
    {
        assert(other@.ancestor(other@.depth() as int).segments =~= other@.segments);
        self.is_ancestor_at(other, other.segments.len())
    }

    /// The text of the path in its clean form.
    pub fn to_text(&self) -> (text: String)
        ensures
            text@ == self@.text(),
    {
        let mut text = String::new();
        if self.absolute {
            proof {
                reveal_strlit("/");
            }
            text.append("/");
        }
        let ghost lead = text@;
        let mut i: usize = 0;
        while i < self.segments.len()
            invariant
                i <= self.segments.len(),
                text@ == lead + joined(texts(self.segments@).take(i as int)),
            decreases self.segments.len() - i,
        {
            let ghost done = texts(self.segments@).take(i as int);
            let ghost next = texts(self.segments@).take(i + 1);
            proof {
                reveal_strlit("/");
                assert(next.drop_last() =~= done);
            }
            if i > 0 {
                text.append("/");
            }
            text.append(self.segments[i].as_str());
            i = i + 1;
        }
        assert(texts(self.segments@).take(self.segments.len() as int) =~= texts(self.segments@));
        assert(lead =~= if self.absolute {
            seq!['/']
        } else {
            Seq::<char>::empty()
        });
        text
    }
}

impl Clone for DirPath {
    fn clone(&self) -> (copy: DirPath)
        ensures
            copy@ == self@,
    {
        proof {
            use_type_invariant(self);
        }
        let mut segments: Vec<String> = Vec::new();
        let mut i: usize = 0;
        while i < self.segments.len()
            invariant
                i <= self.segments.len(),
                segments.len() == i,
                forall|k: int| 0 <= k < i ==> segments[k]@ == self.segments[k]@,
            decreases self.segments.len() - i,
        {
            segments.push(self.segments[i].clone());
            i = i + 1;
        }
        assert(texts(segments@) =~= texts(self.segments@));
        DirPath { absolute: self.absolute, segments }
    }
}

/// Keeping names commutes with adding one more piece.
proof fn lemma_kept_push(all: Seq<Seq<char>>, piece: Seq<char>)
    ensures
        kept(all.push(piece)) == if is_kept(piece) {
            kept(all).push(piece)
        } else {
            kept(all)
        },
{
    assert(all.push(piece).drop_last() =~= all);
}

/// A text without `/` is one piece.
proof fn lemma_pieces_of_name(name: Seq<char>)
    requires
        !name.contains('/'),
    ensures
        pieces(name) == seq![name],
    decreases name.len(),
{
    if name.len() == 0 {
        assert(name =~= Seq::<char>::empty());
    } else {
        let head = name.drop_last();
        lemma_pieces_of_name(head);
        assert(head.push(name.last()) =~= name);
    }
}

/// Characters other than `/` that follow a text lengthen its last piece.
proof fn lemma_pieces_append_name(text: Seq<char>, name: Seq<char>)
    requires
        !name.contains('/'),
    ensures
        pieces(text).len() >= 1,
        pieces(text + name) == pieces(text).update(
            pieces(text).len() - 1,
            pieces(text).last() + name,
        ),
    decreases name.len(),
{
    lemma_pieces_hold_no_separator(text);
    let all = pieces(text);
    if name.len() > 0 {
        let head = name.drop_last();
        lemma_pieces_append_name(text, head);
        assert((text + name).drop_last() =~= text + head);
        assert((all.last() + head).push(name.last()) =~= all.last() + name);
    }
}

/// Names written with `/` between them fall apart into the same names.
proof fn lemma_pieces_of_joined(segments: Seq<Seq<char>>)
    requires
        segments.len() >= 1,
        forall|i: int| 0 <= i < segments.len() ==> is_name(#[trigger] segments[i]),
    ensures
        pieces(joined(segments)) == segments,
    decreases segments.len(),
{
    if segments.len() == 1 {
        lemma_pieces_of_name(segments[0]);
    } else {
        let head = segments.drop_last();
        lemma_pieces_of_joined(head);
        let lead = joined(head).push('/');
        assert(lead.drop_last() =~= joined(head));
        lemma_pieces_append_name(lead, segments.last());
    }
}

/// A leading `/` puts one empty piece before the pieces of the rest.
proof fn lemma_pieces_after_root(text: Seq<char>)
    ensures
        pieces(seq!['/'] + text) == seq![Seq::<char>::empty()] + pieces(text),
    decreases text.len(),
{
    let root = seq!['/'];
    let first = seq![Seq::<char>::empty()];
    lemma_pieces_hold_no_separator(text);
    if text.len() == 0 {
        assert(pieces(root.drop_last()) =~= first);
    } else {
        let head = text.drop_last();
        lemma_pieces_after_root(head);
        lemma_pieces_hold_no_separator(head);
        assert((root + text).drop_last() =~= root + head);
    }
}

/// Names are all kept.
proof fn lemma_kept_names(segments: Seq<Seq<char>>)
    requires
        forall|i: int| 0 <= i < segments.len() ==> is_name(#[trigger] segments[i]),
    ensures
        kept(segments) == segments,
    decreases segments.len(),
{
    if segments.len() > 0 {
        let head = segments.drop_last();
        lemma_kept_names(head);
    }
}

/// An empty first piece is dropped.
proof fn lemma_kept_after_empty(all: Seq<Seq<char>>)
    ensures
        kept(seq![Seq::<char>::empty()] + all) == kept(all),
    decreases all.len(),
{
    let first = seq![Seq::<char>::empty()];
    if all.len() == 0 {
        assert(kept(first.drop_last()) =~= Seq::<Seq<char>>::empty());
    } else {
        lemma_kept_after_empty(all.drop_last());
        assert((first + all).drop_last() =~= first + all.drop_last());
    }
}

/// The text of one or more names starts with the first name's first character.
proof fn lemma_joined_start(segments: Seq<Seq<char>>)
    requires
        segments.len() >= 1,
        forall|i: int| 0 <= i < segments.len() ==> is_name(#[trigger] segments[i]),
    ensures
        joined(segments).len() > 0,
        joined(segments)[0] == segments[0][0],
    decreases segments.len(),
{
    if segments.len() > 1 {
        let head = segments.drop_last();
        lemma_joined_start(head);
    }
}

/// A clean path is read back from its own text.
pub proof fn lemma_text_round_trip(path: PathView)
    requires
        path.clean(),
    ensures
        path_of_text(path.text()) == path,
{
    let segments = path.segments;
    let inner = joined(segments);
    let first = seq![Seq::<char>::empty()];
    if segments.len() == 0 {
        assert(kept(first.drop_last()) =~= Seq::<Seq<char>>::empty());
    } else {
        lemma_pieces_of_joined(segments);
        lemma_kept_names(segments);
        lemma_joined_start(segments);
    }
    if path.absolute {
        lemma_pieces_after_root(inner);
        lemma_kept_after_empty(pieces(inner));
    }
    assert(path_of_text(path.text()).segments =~= path.segments);
}

/// Two clean paths with the same text are the same path.
pub proof fn lemma_text_tells_paths_apart(a: PathView, b: PathView)
    requires
        a.clean(),
        b.clean(),
        a.text() == b.text(),
    ensures
        a == b,
{
    lemma_text_round_trip(a);
    lemma_text_round_trip(b);
}

} // verus!
