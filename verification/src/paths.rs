//! Slash-separated paths, taken apart as `std::path` takes them apart on Unix.

use vstd::prelude::*;
use vstd::string::*;

use crate::seqs::lemma_filter_map_concat;
use crate::text::{
    chars_of, cut, find_last, last_position, law_last_position_has_no_mark_behind,
    lemma_last_position_of_tail, lemma_pieces_free_of_mark, lemma_pieces_join,
    lemma_pieces_not_empty, lemma_pieces_whole, pieces, slice_of, text_of,
};

verus! {

/// One component of a path.
pub enum Part {
    /// The root, `/`.
    Root,
    /// A leading `.`.
    Current,
    /// `..`
    Parent,
    /// A file or directory name.
    Name(Vec<char>),
}

/// What a [`Part`] stands for.
#[verifier::ext_equal]
pub enum PartView {
    Root,
    Current,
    Parent,
    Name(Seq<char>),
}

impl View for Part {
    type V = PartView;

    open spec fn view(&self) -> PartView {
        match self {
            Part::Root => PartView::Root,
            Part::Current => PartView::Current,
            Part::Parent => PartView::Parent,
            Part::Name(name) => PartView::Name(name@),
        }
    }
}

/// The component that one piece between slashes stands for. Empty pieces and
/// `.` stand for none.
pub open spec fn piece_part(piece: Seq<char>) -> Option<PartView> {
    if piece.len() == 0 || piece == "."@ {
        None
    } else if piece == ".."@ {
        Some(PartView::Parent)
    } else {
        Some(PartView::Name(piece))
    }
}

/// The component in front of a path: the root of an absolute path, or a leading
/// `.`.
pub open spec fn front_part(path: Seq<char>) -> Seq<PartView> {
    if path.len() > 0 && path[0] == '/' {
        seq![PartView::Root]
    } else if pieces(path, '/')[0] == "."@ {
        seq![PartView::Current]
    } else {
        Seq::empty()
    }
}

/// The components of a path. Repeated and trailing slashes do not count, nor
/// does a `.` anywhere but in front.
pub open spec fn path_parts(path: Seq<char>) -> Seq<PartView> {
    front_part(path) + pieces(path, '/').filter_map(|piece: Seq<char>| piece_part(piece))
}

/// The contents of a list of components.
pub open spec fn part_views(parts: Seq<Part>) -> Seq<PartView> {
    Seq::new(parts.len(), |i: int| parts[i]@)
}

/// Whether two character lists are equal.
fn same_chars(a: &Vec<char>, b: &Vec<char>) -> (r: bool)
    ensures
        r == (a@ == b@),
{
    if a.len() != b.len() {
        return false;
    }
    let mut i: usize = 0;
    while i < a.len()
        invariant
            a@.len() == b@.len(),
            i <= a@.len(),
            forall|j: int| 0 <= j < i ==> a@[j] == b@[j],
        decreases a@.len() - i,
    {
        if a[i] != b[i] {
            return false;
        }
        i += 1;
    }
    assert(a@ =~= b@);
    true
}

/// Takes a path apart.
pub fn parts_of(path: &str) -> (r: Vec<Part>)
    ensures
        part_views(r@) == path_parts(path@),
{
    let v = chars_of(path);
    let found = cut(&v, '/');
    let dot = chars_of(".");
    let dots = chars_of("..");
    let ghost f = |piece: Seq<char>| piece_part(piece);
    let ghost all = pieces(path@, '/');
    proof {
        lemma_pieces_not_empty(path@, '/');
        assert(all.len() == found@.len());
        assert(all[0] == found@[0]@);
    }
    let mut r: Vec<Part> = Vec::new();
    if v.len() > 0 && v[0] == '/' {
        r.push(Part::Root);
    } else if same_chars(&found[0], &dot) {
        r.push(Part::Current);
    }
    let ghost front = front_part(path@);
    assert(part_views(r@) =~= front);
    let mut i: usize = 0;
    assert(all.take(0).filter_map(f) =~= Seq::<PartView>::empty());
    while i < found.len()
        invariant
            i <= found@.len(),
            all == crate::text::texts(found@),
            f == |piece: Seq<char>| piece_part(piece),
            dot@ == "."@,
            dots@ == ".."@,
            part_views(r@) == front + all.take(i as int).filter_map(f),
        decreases found@.len() - i,
    {
        let ghost before = part_views(r@);
        let ghost piece = all[i as int];
        proof {
            all.lemma_filter_map_take_succ(f, i as int);
        }
        if found[i].len() == 0 || same_chars(&found[i], &dot) {
            assert(f(piece) is None);
        } else if same_chars(&found[i], &dots) {
            r.push(Part::Parent);
            assert(part_views(r@) =~= before.push(PartView::Parent));
        } else {
            r.push(Part::Name(slice_of(&found[i], 0, found[i].len())));
            assert(piece.subrange(0, piece.len() as int) =~= piece);
            assert(part_views(r@) =~= before.push(PartView::Name(piece)));
        }
        assert(part_views(r@) =~= front + all.take(i + 1).filter_map(f));
        i += 1;
    }
    assert(all.take(all.len() as int) =~= all);
    r
}

/// What is left of `path` below `base`, component by component, where `path`
/// lies below it.
pub open spec fn parts_below(path: Seq<char>, base: Seq<char>) -> Option<Seq<PartView>> {
    let all = path_parts(path);
    let front = path_parts(base);
    if front.is_prefix_of(all) {
        Some(all.skip(front.len() as int))
    } else {
        None
    }
}

/// Whether two components are equal.
fn same_part(a: &Part, b: &Part) -> (r: bool)
    ensures
        r == (a@ == b@),
{
    match (a, b) {
        (Part::Root, Part::Root) => true,
        (Part::Current, Part::Current) => true,
        (Part::Parent, Part::Parent) => true,
        (Part::Name(x), Part::Name(y)) => same_chars(x, y),
        _ => false,
    }
}

/// Takes apart what is left of `path` below `base`.
pub fn strip_base(path: &str, base: &str) -> (r: Option<Vec<Part>>)
    ensures
        match r {
            Some(rest) => parts_below(path@, base@) == Some(part_views(rest@)),
            None => parts_below(path@, base@) is None,
        },
{
    let mut all = parts_of(path);
    let front = parts_of(base);
    let ghost whole = path_parts(path@);
    let ghost prefix = path_parts(base@);
    assert(whole.len() == all@.len());
    assert(prefix.len() == front@.len());
    if front.len() > all.len() {
        return None;
    }
    let mut i: usize = 0;
    while i < front.len()
        invariant
            front@.len() <= all@.len(),
            i <= front@.len(),
            whole == part_views(all@),
            whole == path_parts(path@),
            prefix == part_views(front@),
            prefix == path_parts(base@),
            forall|j: int| 0 <= j < i ==> whole[j] == prefix[j],
        decreases front@.len() - i,
    {
        if !same_part(&all[i], &front[i]) {
            assert(whole[i as int] != prefix[i as int]);
            assert(whole.subrange(0, prefix.len() as int)[i as int] != prefix[i as int]);
            return None;
        }
        i += 1;
    }
    assert(whole.subrange(0, prefix.len() as int) =~= prefix);
    let rest = all.split_off(front.len());
    assert(part_views(rest@) =~= whole.skip(prefix.len() as int));
    Some(rest)
}

/// A component as text.
pub open spec fn part_text(part: PartView) -> Seq<char> {
    match part {
        PartView::Root => "/"@,
        PartView::Current => "."@,
        PartView::Parent => ".."@,
        PartView::Name(name) => name,
    }
}

/// Components as a path: with a slash between each two, but none after the root.
pub open spec fn joined(parts: Seq<PartView>) -> Seq<char>
    decreases parts.len(),
{
    if parts.len() == 0 {
        Seq::empty()
    } else if parts.len() == 1 {
        part_text(parts[0])
    } else if parts.drop_last().last() is Root {
        joined(parts.drop_last()) + part_text(parts.last())
    } else {
        joined(parts.drop_last()).push('/') + part_text(parts.last())
    }
}

/// Writes components as a path.
pub fn join_parts(parts: &Vec<Part>) -> (r: String)
    ensures
        r@ == joined(part_views(parts@)),
{
    let ghost all = part_views(parts@);
    let mut r = String::new();
    let mut i: usize = 0;
    assert(all.take(0) =~= Seq::empty());
    while i < parts.len()
        invariant
            i <= parts@.len(),
            all == part_views(parts@),
            r@ == joined(all.take(i as int)),
        decreases parts@.len() - i,
    {
        let ghost row = all.take(i + 1);
        proof {
            assert(row.drop_last() =~= all.take(i as int));
            assert(row.last() == parts@[i as int]@);
            if i > 0 {
                assert(row.drop_last().last() == parts@[i - 1]@);
            }
        }
        if i > 0 {
            match &parts[i - 1] {
                Part::Root => {},
                _ => {
                    r.push('/');
                },
            }
        }
        match &parts[i] {
            Part::Root => {
                r.append("/");
            },
            Part::Current => {
                r.append(".");
            },
            Part::Parent => {
                r.append("..");
            },
            Part::Name(name) => {
                assert(name@.subrange(0, name@.len() as int) =~= name@);
                let text = text_of(name, 0, name.len());
                r.append(text.as_str());
            },
        }
        assert(r@ =~= joined(row));
        i += 1;
    }
    assert(all.take(all.len() as int) =~= all);
    r
}

/// The file name of a path: its last component, where that is a name.
pub open spec fn file_name(parts: Seq<PartView>) -> Option<Seq<char>> {
    if parts.len() > 0 {
        match parts.last() {
            PartView::Name(name) => Some(name),
            _ => None,
        }
    } else {
        None
    }
}

/// Finds the file name.
pub fn find_file_name(parts: &Vec<Part>) -> (r: Option<&Vec<char>>)
    ensures
        match r {
            Some(name) => file_name(part_views(parts@)) == Some(name@),
            None => file_name(part_views(parts@)) is None,
        },
{
    if parts.len() == 0 {
        return None;
    }
    let ghost views = part_views(parts@);
    assert(views.last() == parts@[parts@.len() - 1]@);
    match &parts[parts.len() - 1] {
        Part::Name(name) => Some(name),
        _ => None,
    }
}

/// A file name without its extension. A dot in front begins no extension.
pub open spec fn name_stem(name: Seq<char>) -> Seq<char> {
    let at = last_position(name, '.');
    if at <= 0 {
        name
    } else {
        name.take(at)
    }
}

/// The extension of a file name: what follows the last dot, unless that dot
/// stands in front.
pub open spec fn name_extension(name: Seq<char>) -> Option<Seq<char>> {
    let at = last_position(name, '.');
    if at <= 0 {
        None
    } else {
        Some(name.skip(at + 1))
    }
}

/// Parts a file name into stem and extension.
pub fn split_name(name: &Vec<char>) -> (r: (String, Option<String>))
    ensures
        r.0@ == name_stem(name@),
        match r.1 {
            Some(extension) => name_extension(name@) == Some(extension@),
            None => name_extension(name@) is None,
        },
{
    match find_last(name, '.') {
        Some(at) => {
            if at == 0 {
                assert(name@.subrange(0, name@.len() as int) =~= name@);
                (text_of(name, 0, name.len()), None)
            } else {
                assert(name@.subrange(0, at as int) =~= name@.take(at as int));
                assert(name@.subrange(at + 1, name@.len() as int) =~= name@.skip(at + 1));
                (text_of(name, 0, at), Some(text_of(name, at + 1, name.len())))
            }
        },
        None => {
            assert(name@.subrange(0, name@.len() as int) =~= name@);
            (text_of(name, 0, name.len()), None)
        },
    }
}

/// A path that ends in a slash and a name has the components of what stands in
/// front, and then that name.
pub proof fn law_name_below_directory(directory: Seq<char>, name: Seq<char>)
    requires
        directory.len() > 0,
        !name.contains('/'),
        name.len() > 0,
        name != "."@,
        name != ".."@,
    ensures
        path_parts(directory.push('/') + name) == path_parts(directory).push(PartView::Name(name)),
{
    let path = directory.push('/') + name;
    let f = |piece: Seq<char>| piece_part(piece);
    lemma_pieces_join(directory, '/', name);
    lemma_pieces_whole(name, '/');
    lemma_pieces_not_empty(directory, '/');
    lemma_filter_map_concat(pieces(directory, '/'), seq![name], f);
    Seq::lemma_filter_map_singleton(name, f);
    assert(pieces(path, '/')[0] == pieces(directory, '/')[0]);
    assert(path_parts(path) =~= path_parts(directory).push(PartView::Name(name)));
}

/// A path without a slash is a name, unless it is empty, `.` or `..`, and the
/// empty path has no component.
pub proof fn law_name_alone(name: Seq<char>)
    requires
        !name.contains('/'),
        name.len() > 0,
        name != "."@,
        name != ".."@,
    ensures
        path_parts(name) == seq![PartView::Name(name)],
        path_parts(Seq::empty()) == Seq::<PartView>::empty(),
{
    reveal_strlit(".");
    let f = |piece: Seq<char>| piece_part(piece);
    lemma_pieces_whole(name, '/');
    Seq::lemma_filter_map_singleton(name, f);
    assert(name.contains(name[0]));
    assert(path_parts(name) =~= seq![PartView::Name(name)]);
    let none = Seq::<char>::empty();
    Seq::lemma_filter_map_singleton(none, f);
    assert(path_parts(none) =~= Seq::empty());
}

/// Whether a component is a name that a path can hold.
spec fn plain_name(part: PartView) -> bool {
    match part {
        PartView::Name(name) => name.len() > 0 && !name.contains('/') && name != "."@ && name
            != ".."@,
        _ => false,
    }
}

proof fn lemma_names_are_plain(path: Seq<char>, i: int)
    requires
        0 <= i < path_parts(path).len(),
        path_parts(path)[i] is Name,
    ensures
        plain_name(path_parts(path)[i]),
{
    let f = |piece: Seq<char>| piece_part(piece);
    let all = pieces(path, '/');
    let part = path_parts(path)[i];
    let body = all.filter_map(f);
    assert(body[i - front_part(path).len()] == part);
    assert(body.contains(part));
    all.lemma_filter_map_contains(f, part);
    let piece = choose|piece: Seq<char>| #[trigger] all.contains(piece) && f(piece) == Some(part);
    let j = choose|j: int| 0 <= j < all.len() && all[j] == piece;
    lemma_pieces_free_of_mark(path, '/', j);
}

proof fn lemma_joined_names(parts: Seq<PartView>)
    requires
        forall|i: int| 0 <= i < parts.len() ==> plain_name(#[trigger] parts[i]),
    ensures
        path_parts(joined(parts)) == parts,
        parts.len() > 0 ==> joined(parts).len() > 0,
    decreases parts.len(),
{
    reveal_strlit(".");
    if parts.len() == 0 {
        let none = Seq::<char>::empty();
        Seq::lemma_filter_map_singleton(none, |piece: Seq<char>| piece_part(piece));
        assert(path_parts(none) =~= parts);
    } else {
        let front = parts.drop_last();
        assert(plain_name(parts[parts.len() - 1]));
        let name = parts.last()->0;
        if parts.len() == 1 {
            law_name_alone(name);
            assert(parts =~= seq![PartView::Name(name)]);
        } else {
            assert(forall|i: int| 0 <= i < front.len() ==> #[trigger] front[i] == parts[i]);
            lemma_joined_names(front);
            assert(plain_name(front[front.len() - 1]));
            law_name_below_directory(joined(front), name);
            assert(parts =~= front.push(PartView::Name(name)));
        }
    }
}

/// A path below a directory, written relative to it, leads through the same
/// components, as long as these are names.
pub proof fn law_relative_path_keeps_components(path: Seq<char>, base: Seq<char>)
    requires
        parts_below(path, base) is Some,
        forall|i: int|
            0 <= i < parts_below(path, base)->0.len() ==> (#[trigger] parts_below(path, base)->0[i])
                is Name,
    ensures
        path_parts(joined(parts_below(path, base)->0)) == parts_below(path, base)->0,
{
    let rest = parts_below(path, base)->0;
    let skipped = path_parts(base).len();
    assert forall|i: int| 0 <= i < rest.len() implies plain_name(#[trigger] rest[i]) by {
        assert(rest[i] == path_parts(path)[skipped + i]);
        lemma_names_are_plain(path, skipped + i);
    }
    lemma_joined_names(rest);
}

/// A name made of a stem, a dot and an extension without dots comes apart into
/// these.
pub proof fn law_stem_and_extension(stem: Seq<char>, extension: Seq<char>)
    requires
        stem.len() > 0,
        !extension.contains('.'),
    ensures
        name_stem(stem.push('.') + extension) == stem,
        name_extension(stem.push('.') + extension) == Some(extension),
{
    let name = stem.push('.') + extension;
    lemma_last_position_of_tail(stem, '.', extension);
    assert(name.take(stem.len() as int) =~= stem);
    assert(name.skip(stem.len() as int + 1) =~= extension);
}

/// What a path gains by a slash and one more piece behind it.
spec fn piece_tail(piece: Seq<char>) -> Seq<PartView> {
    if piece.len() == 0 || piece == seq!['.'] {
        Seq::empty()
    } else if piece == seq!['.', '.'] {
        seq![PartView::Parent]
    } else {
        seq![PartView::Name(piece)]
    }
}

proof fn lemma_piece_tail(piece: Seq<char>)
    ensures
        seq![piece].filter_map(|p: Seq<char>| piece_part(p)) == piece_tail(piece),
{
    reveal_strlit(".");
    reveal_strlit("..");
    assert("."@ =~= seq!['.']);
    assert(".."@ =~= seq!['.', '.']);
    let f = |p: Seq<char>| piece_part(p);
    Seq::lemma_filter_map_singleton(piece, f);
    assert(seq![piece].filter_map(f) =~= piece_tail(piece));
}

/// A path is read piece by piece. Behind a slash, an empty piece and `.` add
/// nothing, `..` adds the parent and any other piece is a name; a slash in front is
/// the root; and in front, `.` is the current directory.
pub proof fn law_components_come_piece_by_piece(directory: Seq<char>, piece: Seq<char>)
    requires
        !piece.contains('/'),
    ensures
        ({
            let tail: Seq<PartView> = if piece.len() == 0 || piece == seq!['.'] {
                Seq::empty()
            } else if piece == seq!['.', '.'] {
                seq![PartView::Parent]
            } else {
                seq![PartView::Name(piece)]
            };
            &&& directory.len() > 0 ==> path_parts(directory.push('/') + piece) == path_parts(
                directory,
            ) + tail
            &&& path_parts(seq!['/'] + piece) == seq![PartView::Root] + tail
            &&& path_parts(piece) == if piece == seq!['.'] {
                seq![PartView::Current]
            } else {
                tail
            }
        }),
{
    reveal_strlit(".");
    assert("."@ =~= seq!['.']);
    let f = |p: Seq<char>| piece_part(p);
    let none = Seq::<char>::empty();
    lemma_pieces_whole(piece, '/');
    lemma_piece_tail(piece);
    lemma_piece_tail(none);
    if directory.len() > 0 {
        let path = directory.push('/') + piece;
        lemma_pieces_join(directory, '/', piece);
        lemma_pieces_not_empty(directory, '/');
        lemma_filter_map_concat(pieces(directory, '/'), seq![piece], f);
        assert(pieces(path, '/')[0] == pieces(directory, '/')[0]);
        assert(path_parts(path) =~= path_parts(directory) + piece_tail(piece));
    }
    let rooted = seq!['/'] + piece;
    assert(none.push('/') + piece =~= rooted);
    lemma_pieces_whole(none, '/');
    lemma_pieces_join(none, '/', piece);
    lemma_filter_map_concat(seq![none], seq![piece], f);
    assert(path_parts(rooted) =~= seq![PartView::Root] + piece_tail(piece));
    if piece.len() > 0 {
        assert(piece.contains(piece[0]));
    }
    assert(path_parts(piece) =~= if piece == seq!['.'] {
        seq![PartView::Current]
    } else {
        piece_tail(piece)
    });
}

/// What lies below a base is what its components leave of the path's.
pub proof fn law_base_and_rest_make_the_path(
    path: Seq<char>,
    base: Seq<char>,
    rest: Seq<PartView>,
)
    ensures
        parts_below(path, base) == Some(rest) <==> path_parts(path) == path_parts(base) + rest,
        parts_below(path, base) is None <==> !path_parts(base).is_prefix_of(path_parts(path)),
{
    let all = path_parts(path);
    let front = path_parts(base);
    if front.is_prefix_of(all) {
        assert(all =~= front + all.skip(front.len() as int));
    }
    if all == front + rest {
        assert(all.subrange(0, front.len() as int) =~= front);
        assert(all.skip(front.len() as int) =~= rest);
    }
}

/// A file name is a name that ends the path.
pub proof fn law_file_name_ends_the_path(parts: Seq<PartView>, name: Seq<char>)
    ensures
        file_name(parts) == Some(name) <==> parts.len() > 0 && parts[parts.len() - 1]
            == PartView::Name(name),
        file_name(parts) is None <==> parts.len() == 0 || !(parts[parts.len() - 1] is Name),
{
}

/// A name without a dot, or with none but the one in front, is all stem.
pub proof fn law_dot_in_front_begins_no_extension(name: Seq<char>)
    requires
        !name.contains('.'),
    ensures
        name_stem(name) == name,
        name_extension(name) is None,
        name_stem(seq!['.'] + name) == seq!['.'] + name,
        name_extension(seq!['.'] + name) is None,
{
    let none = Seq::<char>::empty();
    law_last_position_has_no_mark_behind(none, '.', name);
    assert(none.push('.') + name =~= seq!['.'] + name);
}

/// Components of names and nothing else, given by their slash-separated text.
spec fn plain_pieces(text: Seq<char>) -> bool {
    forall|i: int|
        0 <= i < pieces(text, '/').len() ==> {
            let piece = #[trigger] pieces(text, '/')[i];
            piece.len() > 0 && piece != seq!['.'] && piece != seq!['.', '.']
        }
}

proof fn lemma_pieces_split(text: Seq<char>) -> (at: int)
    ensures
        -1 <= at < text.len(),
        at >= 0 ==> text[at] == '/' && text == text.take(at).push('/') + text.skip(at + 1),
        !text.skip(at + 1).contains('/'),
    decreases text.len(),
{
    if text.len() == 0 {
        assert(text.skip(0) =~= text);
        -1
    } else if text.last() == '/' {
        let at = text.len() - 1;
        assert(text.skip(at + 1) =~= Seq::empty());
        assert(text =~= text.take(at).push('/') + text.skip(at + 1));
        at
    } else {
        let front = text.drop_last();
        let at = lemma_pieces_split(front);
        let tail = text.skip(at + 1);
        assert(tail =~= front.skip(at + 1).push(text.last()));
        if tail.contains('/') {
            let i = choose|i: int| 0 <= i < tail.len() && tail[i] == '/';
            assert(i < front.skip(at + 1).len());
            assert(front.skip(at + 1)[i] == '/');
        }
        if at >= 0 {
            assert(text =~= text.take(at).push('/') + tail);
        }
        at
    }
}

/// The pieces of a text as names.
spec fn names_in(text: Seq<char>) -> Seq<PartView> {
    pieces(text, '/').map_values(|piece: Seq<char>| PartView::Name(piece))
}

proof fn lemma_names_split(front: Seq<char>, last: Seq<char>)
    requires
        !last.contains('/'),
        plain_pieces(front.push('/') + last),
    ensures
        plain_pieces(front),
        last.len() > 0 && last != seq!['.'] && last != seq!['.', '.'],
        names_in(front.push('/') + last) == names_in(front).push(PartView::Name(last)),
        names_in(front).len() > 0,
        names_in(front).last() is Name,
{
    let text = front.push('/') + last;
    let all = pieces(text, '/');
    let before = pieces(front, '/');
    lemma_pieces_whole(last, '/');
    lemma_pieces_join(front, '/', last);
    lemma_pieces_not_empty(front, '/');
    assert(all == before + seq![last]);
    assert(all[before.len() as int] == last);
    assert forall|i: int| 0 <= i < before.len() implies {
        let piece = #[trigger] before[i];
        piece.len() > 0 && piece != seq!['.'] && piece != seq!['.', '.']
    } by {
        assert(all[i] == before[i]);
    }
    assert(names_in(text) =~= names_in(front).push(PartView::Name(last)));
}

proof fn lemma_one_name(text: Seq<char>)
    requires
        !text.contains('/'),
        plain_pieces(text),
    ensures
        text.len() > 0 && text != seq!['.'] && text != seq!['.', '.'],
        names_in(text) == seq![PartView::Name(text)],
{
    lemma_pieces_whole(text, '/');
    assert(pieces(text, '/')[0] == text);
    assert(names_in(text) =~= seq![PartView::Name(text)]);
}

proof fn lemma_joined_pieces(text: Seq<char>)
    requires
        plain_pieces(text),
    ensures
        joined(names_in(text)) == text,
    decreases text.len(),
{
    let at = lemma_pieces_split(text);
    let last = text.skip(at + 1);
    if at < 0 {
        assert(last =~= text);
        lemma_one_name(text);
    } else {
        let front = text.take(at);
        lemma_names_split(front, last);
        lemma_joined_pieces(front);
        let names = names_in(text);
        assert(names.drop_last() =~= names_in(front));
        assert(names.last() == PartView::Name(last));
        assert(joined(names) == joined(names_in(front)).push('/') + last);
    }
}

proof fn lemma_parts_of_names(base: Seq<char>, text: Seq<char>)
    requires
        plain_pieces(text),
        base.len() > 0,
    ensures
        path_parts(base.push('/') + text) == path_parts(base) + names_in(text),
    decreases text.len(),
{
    let at = lemma_pieces_split(text);
    let last = text.skip(at + 1);
    if at < 0 {
        assert(last =~= text);
        lemma_one_name(text);
        law_components_come_piece_by_piece(base, text);
    } else {
        let front = text.take(at);
        lemma_names_split(front, last);
        lemma_parts_of_names(base, front);
        let directory = base.push('/') + front;
        law_components_come_piece_by_piece(directory, last);
        assert(directory.push('/') + last =~= base.push('/') + text);
        assert(path_parts(base.push('/') + text) =~= path_parts(base) + names_in(text));
    }
}

/// A path made of a base, a slash and a row of names with a slash between each two
/// is, relative to that base, just that row.
pub proof fn law_relative_path_is_the_rest(base: Seq<char>, rest: Seq<char>)
    requires
        base.len() > 0,
        forall|i: int|
            0 <= i < pieces(rest, '/').len() ==> {
                let piece = #[trigger] pieces(rest, '/')[i];
                piece.len() > 0 && piece != seq!['.'] && piece != seq!['.', '.']
            },
    ensures
        parts_below(base.push('/') + rest, base) is Some,
        joined(parts_below(base.push('/') + rest, base)->0) == rest,
        parts_below(base, base) is Some,
        joined(parts_below(base, base)->0) == Seq::<char>::empty(),
{
    lemma_parts_of_names(base, rest);
    lemma_joined_pieces(rest);
    law_base_and_rest_make_the_path(base.push('/') + rest, base, names_in(rest));
    let none = Seq::<PartView>::empty();
    assert(path_parts(base) =~= path_parts(base) + none);
    law_base_and_rest_make_the_path(base, base, none);
}

/// A list of components holds them one by one, each as what it is.
pub proof fn law_lists_hold_their_components(parts: Seq<Part>)
    ensures
        part_views(parts).len() == parts.len(),
        forall|i: int|
            0 <= i < parts.len() ==> #[trigger] part_views(parts)[i] == match parts[i] {
                Part::Root => PartView::Root,
                Part::Current => PartView::Current,
                Part::Parent => PartView::Parent,
                Part::Name(name) => PartView::Name(name@),
            },
{
}

/// Written as a path, one more component comes behind a slash, or without one if it
/// is the first or stands right behind the root.
pub proof fn law_components_are_joined_by_slashes(parts: Seq<PartView>, last: PartView)
    ensures
        ({
            let text = match last {
                PartView::Root => seq!['/'],
                PartView::Current => seq!['.'],
                PartView::Parent => seq!['.', '.'],
                PartView::Name(name) => name,
            };
            &&& joined(Seq::empty()) == Seq::<char>::empty()
            &&& parts.len() == 0 || parts.last() is Root ==> joined(parts.push(last)) == joined(
                parts,
            ) + text
            &&& parts.len() > 0 && !(parts.last() is Root) ==> joined(parts.push(last)) == joined(
                parts,
            ).push('/') + text
        }),
{
    reveal_strlit("/");
    reveal_strlit(".");
    reveal_strlit("..");
    assert("/"@ =~= seq!['/']);
    assert("."@ =~= seq!['.']);
    assert(".."@ =~= seq!['.', '.']);
    assert(parts.push(last).drop_last() =~= parts);
    if parts.len() == 0 {
        assert(joined(parts) + part_text(last) =~= part_text(last));
    }
}

} // verus!
