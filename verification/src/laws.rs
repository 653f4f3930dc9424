//! What holds of every load.
//!
//! Each statement here is about the definitions of [`crate::obj`] and
//! [`crate::text`], which the functions that run are proved to follow.

use vstd::prelude::*;
use crate::error::LoadingError;
use crate::number::{one, zero};
use crate::obj::{
    all_numbers, corner_of, directive_of, entry_of, face_of, is_comment, load_lines, Corner,
    Directive, EntryView, Mesh, Quad, Triple,
};
use crate::obj::load_text;
use crate::text::{
    field_end, fields_from, is_space, lemma_field_end, lemma_line_end, lemma_word_end, line_end,
    lines, lines_from, word_end, words, words_from,
};

verus! {

/// What each line contributes, where every line is accepted.
pub open spec fn entries_of(lines: Seq<Seq<char>>) -> Seq<EntryView> {
    Seq::new(lines.len(), |k: int| entry_of(lines[k], k as usize)->Ok_0)
}

/// The vertices among `entries`, in their order.
pub open spec fn vertices_among(entries: Seq<EntryView>) -> Seq<Quad> {
    entries.filter(|e: EntryView| e is Vertex).map_values(|e: EntryView| e->Vertex_0)
}

/// The normals among `entries`, in their order.
pub open spec fn normals_among(entries: Seq<EntryView>) -> Seq<Triple> {
    entries.filter(|e: EntryView| e is Normal).map_values(|e: EntryView| e->Normal_0)
}

/// The texture coordinates among `entries`, in their order.
pub open spec fn texcoords_among(entries: Seq<EntryView>) -> Seq<Triple> {
    entries.filter(|e: EntryView| e is Texcoord).map_values(|e: EntryView| e->Texcoord_0)
}

/// The faces among `entries`, in their order.
pub open spec fn faces_among(entries: Seq<EntryView>) -> Seq<Seq<Corner>> {
    entries.filter(|e: EntryView| e is Face).map_values(|e: EntryView| e->Face_0)
}

/// The four sequences that `entries` make up.
pub open spec fn mesh_of(entries: Seq<EntryView>) -> Mesh {
    Mesh {
        vertices: vertices_among(entries),
        normals: normals_among(entries),
        texcoords: texcoords_among(entries),
        faces: faces_among(entries),
    }
}

/// One more entry goes to the end of the sequence of its kind and to no
/// other.
pub proof fn lemma_mesh_of_push(entries: Seq<EntryView>, entry: EntryView)
    ensures
        mesh_of(entries.push(entry)) == mesh_of(entries).with(entry),
{
    reveal(Seq::filter);
    let longer = entries.push(entry);
    assert(longer.drop_last() =~= entries);
    assert(longer.last() == entry);
    assert(vertices_among(longer) =~= mesh_of(entries).with(entry).vertices);
    assert(normals_among(longer) =~= mesh_of(entries).with(entry).normals);
    assert(texcoords_among(longer) =~= mesh_of(entries).with(entry).texcoords);
    assert(faces_among(longer) =~= mesh_of(entries).with(entry).faces);
}

/// Order is kept and nothing is lost or invented: where a load succeeds,
/// every line was accepted, and each of the four sequences of the mesh holds
/// exactly what the lines of its kind contribute, in the order of the lines.
pub proof fn lemma_load_keeps_order(lines: Seq<Seq<char>>)
    requires
        load_lines(lines) is Ok,
    ensures
        forall|k: int| 0 <= k < lines.len() ==> (#[trigger] entry_of(lines[k], k as usize)) is Ok,
        load_lines(lines)->Ok_0 == mesh_of(entries_of(lines)),
    decreases lines.len(),
{
    reveal(Seq::filter);
    if lines.len() == 0 {
        assert(entries_of(lines) =~= Seq::<EntryView>::empty());
        assert(mesh_of(entries_of(lines)).vertices =~= Seq::<Quad>::empty());
        assert(mesh_of(entries_of(lines)).normals =~= Seq::<Triple>::empty());
        assert(mesh_of(entries_of(lines)).texcoords =~= Seq::<Triple>::empty());
        assert(mesh_of(entries_of(lines)).faces =~= Seq::<Seq<Corner>>::empty());
    } else {
        let before = lines.drop_last();
        lemma_load_keeps_order(before);
        let last = entry_of(lines.last(), (lines.len() - 1) as usize);
        assert forall|k: int| 0 <= k < lines.len() implies (#[trigger] entry_of(
            lines[k],
            k as usize,
        )) is Ok by {
            if k < lines.len() - 1 {
                assert(before[k] == lines[k]);
            }
        }
        assert(entries_of(lines) =~= entries_of(before).push(last->Ok_0));
        lemma_mesh_of_push(entries_of(before), last->Ok_0);
    }
}

/// The mesh only grows: what a load has built after some of its lines is the
/// beginning of what it has built after all of them.
pub proof fn lemma_load_only_appends(lines: Seq<Seq<char>>, n: int)
    requires
        0 <= n <= lines.len(),
        load_lines(lines) is Ok,
    ensures
        load_lines(lines.take(n)) is Ok,
        load_lines(lines.take(n))->Ok_0.is_prefix_of(load_lines(lines)->Ok_0),
    decreases lines.len() - n,
{
    if n == lines.len() {
        assert(lines.take(n) =~= lines);
    } else {
        assert(lines.drop_last().take(n) =~= lines.take(n));
        lemma_load_only_appends(lines.drop_last(), n);
        let before = load_lines(lines.drop_last())->Ok_0;
        let entry = entry_of(lines.last(), (lines.len() - 1) as usize)->Ok_0;
        lemma_with_only_appends(before, entry);
    }
}

/// An entry is appended: the mesh before it is the beginning of the mesh
/// with it.
pub proof fn lemma_with_only_appends(mesh: Mesh, entry: EntryView)
    ensures
        mesh.is_prefix_of(mesh.with(entry)),
{
}

/// An error of a face carries the number of the line.
pub proof fn lemma_face_error_line(args: Seq<Seq<char>>, nb: usize)
    requires
        face_of(args, nb) is Err,
    ensures
        face_of(args, nb)->Err_0.spec_line() == Some(nb),
    decreases args.len(),
{
    if args.len() > 0 && face_of(args.drop_last(), nb) is Err {
        lemma_face_error_line(args.drop_last(), nb);
    }
}

/// An error of a line carries the number of that line.
pub proof fn lemma_entry_error_line(line: Seq<char>, nb: usize)
    requires
        entry_of(line, nb) is Err,
    ensures
        entry_of(line, nb)->Err_0.spec_line() == Some(nb),
{
    if !is_comment(line) && words(line).len() > 0 {
        if directive_of(words(line)[0]) == Some(Directive::Face) {
            lemma_face_error_line(words(line).skip(1), nb);
        }
    }
}

/// The number of a line matters to its error only: whether a line is
/// accepted, and what it then contributes, is the same under every number.
pub proof fn lemma_entry_ignores_line_number(line: Seq<char>, a: usize, b: usize)
    ensures
        entry_of(line, a) is Ok <==> entry_of(line, b) is Ok,
        entry_of(line, a) is Ok ==> entry_of(line, a) == entry_of(line, b),
{
    if !is_comment(line) && words(line).len() > 0 {
        if directive_of(words(line)[0]) == Some(Directive::Face) {
            lemma_face_ignores_line_number(words(line).skip(1), a, b);
        }
    }
}

/// Whether the arguments of a face are accepted, and the face that they then
/// denote, is the same under every line number.
pub proof fn lemma_face_ignores_line_number(args: Seq<Seq<char>>, a: usize, b: usize)
    ensures
        face_of(args, a) is Ok <==> face_of(args, b) is Ok,
        face_of(args, a) is Ok ==> face_of(args, a) == face_of(args, b),
    decreases args.len(),
{
    if args.len() > 0 {
        lemma_face_ignores_line_number(args.drop_last(), a, b);
    }
}

/// The error of a load names the line that caused it: where a load fails,
/// there is a line `n` such that every line before it is accepted, line `n`
/// is refused, and the error of the load is the error of line `n`, which
/// carries the number `n`. The function returns that `n`.
pub proof fn lemma_load_error_line(lines: Seq<Seq<char>>) -> (n: int)
    requires
        load_lines(lines) is Err,
        lines.len() <= usize::MAX,
    ensures
        0 <= n < lines.len(),
        forall|k: int| 0 <= k < n ==> (#[trigger] entry_of(lines[k], k as usize)) is Ok,
        entry_of(lines[n], n as usize) == Err::<EntryView, LoadingError>(
            load_lines(lines)->Err_0,
        ),
        load_lines(lines)->Err_0.spec_line() == Some(n as usize),
        n as usize == n,
    decreases lines.len(),
{
    let before = lines.drop_last();
    if load_lines(before) is Err {
        let n = lemma_load_error_line(before);
        assert(before[n] == lines[n]);
        assert forall|k: int| 0 <= k < n implies (#[trigger] entry_of(lines[k], k as usize)) is Ok by {
            assert(before[k] == lines[k]);
        }
        n
    } else {
        let n = lines.len() - 1;
        lemma_load_keeps_order(before);
        assert forall|k: int| 0 <= k < n implies (#[trigger] entry_of(lines[k], k as usize)) is Ok by {
            assert(before[k] == lines[k]);
        }
        lemma_entry_error_line(lines[n], n as usize);
        n
    }
}

/// A text has at most as many lines as characters, and its lines put
/// together give the text back: no character is lost, added or moved.
pub proof fn lemma_lines_cover_text(s: Seq<char>, i: int)
    requires
        0 <= i <= s.len(),
    ensures
        lines_from(s, i).len() <= s.len() - i,
        lines_from(s, i).flatten() == s.skip(i),
    decreases s.len() - i,
{
    let all = lines_from(s, i);
    if i < s.len() {
        lemma_line_end(s, i);
        let e = line_end(s, i);
        lemma_lines_cover_text(s, e);
        assert(all.first() == s.subrange(i, e));
        assert(all.drop_first() =~= lines_from(s, e));
        assert(all.flatten() =~= s.skip(i));
    } else {
        assert(all.flatten() =~= s.skip(i));
    }
}

/// The error of a load names the line that caused it, for a text as for its
/// lines: line `n` of the text, counted from zero with every line counted, is
/// the first that is refused, and the error is its error and carries `n`.
/// The function returns that `n`.
pub proof fn lemma_load_text_error_line(text: Seq<char>) -> (n: int)
    requires
        load_text(text) is Err,
        text.len() <= usize::MAX,
    ensures
        0 <= n < lines(text).len(),
        forall|k: int| 0 <= k < n ==> (#[trigger] entry_of(lines(text)[k], k as usize)) is Ok,
        entry_of(lines(text)[n], n as usize) == Err::<EntryView, LoadingError>(
            load_text(text)->Err_0,
        ),
        load_text(text)->Err_0.spec_line() == Some(n as usize),
        n as usize == n,
{
    lemma_lines_cover_text(text, 0);
    lemma_load_error_line(lines(text))
}

/// A comment is accepted and contributes nothing, whatever follows the `#`.
pub proof fn lemma_comment_adds_nothing(mesh: Mesh, line: Seq<char>, nb: usize)
    requires
        is_comment(line),
    ensures
        entry_of(line, nb) == Ok::<EntryView, LoadingError>(EntryView::Nothing),
        mesh.with(entry_of(line, nb)->Ok_0) == mesh,
{
}

/// A smoothing group and an object name are accepted and contribute nothing,
/// whatever their arguments.
pub proof fn lemma_ignored_directive_adds_nothing(mesh: Mesh, line: Seq<char>, nb: usize)
    requires
        !is_comment(line),
        words(line).len() > 0,
        words(line)[0] == seq!['s'] || words(line)[0] == seq!['o'],
    ensures
        entry_of(line, nb) == Ok::<EntryView, LoadingError>(EntryView::Nothing),
        mesh.with(entry_of(line, nb)->Ok_0) == mesh,
{
    lemma_keywords_differ();
}

/// A line that contributes nothing may be added at the end of a text: the
/// load of the longer text ends as the load of the shorter one.
pub proof fn lemma_load_skips_silent_line(lines: Seq<Seq<char>>, line: Seq<char>)
    requires
        entry_of(line, lines.len() as usize) == Ok::<EntryView, LoadingError>(EntryView::Nothing),
    ensures
        load_lines(lines.push(line)) == load_lines(lines),
{
    let longer = lines.push(line);
    assert(longer.drop_last() =~= lines);
    assert(longer.last() == line);
}

/// The six keywords are six different words.
pub proof fn lemma_keywords_differ()
    ensures
        directive_of(seq!['v']) == Some(Directive::Vertex),
        directive_of(seq!['v', 'n']) == Some(Directive::Normal),
        directive_of(seq!['v', 't']) == Some(Directive::Texcoord),
        directive_of(seq!['f']) == Some(Directive::Face),
        directive_of(seq!['s']) == Some(Directive::Smoothing),
        directive_of(seq!['o']) == Some(Directive::Object),
{
    assert(seq!['v'][0] == 'v' && seq!['f'][0] == 'f' && seq!['s'][0] == 's' && seq!['o'][0]
        == 'o');
    assert(seq!['v', 'n'].len() == 2 && seq!['v', 't'].len() == 2 && seq!['v'].len() == 1);
    assert(seq!['v', 'n'][1] == 'n' && seq!['v', 't'][1] == 't');
}

/// A `v` line whose arguments are all numbers gives a vertex if and only if
/// it has three or four of them: four are taken as they stand, three get one
/// as the fourth coordinate. With any other count the line is refused for
/// its number of arguments.
pub proof fn lemma_vertex_line(line: Seq<char>, nb: usize)
    requires
        !is_comment(line),
        words(line).len() > 0,
        words(line)[0] == seq!['v'],
        all_numbers(words(line).skip(1)),
    ensures
        ({
            let a = words(line).skip(1);
            &&& a.len() == 4 ==> entry_of(line, nb) == Ok::<EntryView, LoadingError>(
                EntryView::Vertex((a[0], a[1], a[2], a[3])),
            )
            &&& a.len() == 3 ==> entry_of(line, nb) == Ok::<EntryView, LoadingError>(
                EntryView::Vertex((a[0], a[1], a[2], one())),
            )
            &&& a.len() != 3 && a.len() != 4 ==> entry_of(line, nb) == Err::<
                EntryView,
                LoadingError,
            >(LoadingError::WrongNumberOfArguments(nb))
        }),
{
    lemma_keywords_differ();
}

/// A `vn` line whose arguments are all numbers gives a normal if and only if
/// it has three of them. With any other count the line is refused for its
/// number of arguments.
pub proof fn lemma_normal_line(line: Seq<char>, nb: usize)
    requires
        !is_comment(line),
        words(line).len() > 0,
        words(line)[0] == seq!['v', 'n'],
        all_numbers(words(line).skip(1)),
    ensures
        ({
            let a = words(line).skip(1);
            &&& a.len() == 3 ==> entry_of(line, nb) == Ok::<EntryView, LoadingError>(
                EntryView::Normal((a[0], a[1], a[2])),
            )
            &&& a.len() != 3 ==> entry_of(line, nb) == Err::<EntryView, LoadingError>(
                LoadingError::WrongNumberOfArguments(nb),
            )
        }),
{
    lemma_keywords_differ();
}

/// A `vt` line whose arguments are all numbers gives a texture coordinate if
/// and only if it has two or three of them: three are taken as they stand,
/// two get zero as the third coordinate. With any other count the line is
/// refused for its number of arguments.
pub proof fn lemma_texcoord_line(line: Seq<char>, nb: usize)
    requires
        !is_comment(line),
        words(line).len() > 0,
        words(line)[0] == seq!['v', 't'],
        all_numbers(words(line).skip(1)),
    ensures
        ({
            let a = words(line).skip(1);
            &&& a.len() == 3 ==> entry_of(line, nb) == Ok::<EntryView, LoadingError>(
                EntryView::Texcoord((a[0], a[1], a[2])),
            )
            &&& a.len() == 2 ==> entry_of(line, nb) == Ok::<EntryView, LoadingError>(
                EntryView::Texcoord((a[0], a[1], zero())),
            )
            &&& a.len() != 2 && a.len() != 3 ==> entry_of(line, nb) == Err::<
                EntryView,
                LoadingError,
            >(LoadingError::WrongNumberOfArguments(nb))
        }),
{
    lemma_keywords_differ();
}

/// A geometry line with an argument that is no number is refused for that,
/// whatever the number of its arguments.
pub proof fn lemma_malformed_number_line(line: Seq<char>, nb: usize)
    requires
        !is_comment(line),
        words(line).len() > 0,
        words(line)[0] == seq!['v'] || words(line)[0] == seq!['v', 'n'] || words(line)[0] == seq![
            'v',
            't',
        ],
        !all_numbers(words(line).skip(1)),
    ensures
        entry_of(line, nb) == Err::<EntryView, LoadingError>(LoadingError::Parse(nb)),
{
    lemma_keywords_differ();
}

/// A face has one corner for each argument, in the order of the arguments.
pub proof fn lemma_face_corners(args: Seq<Seq<char>>, nb: usize)
    requires
        face_of(args, nb) is Ok,
    ensures
        face_of(args, nb)->Ok_0.len() == args.len(),
        forall|k: int|
            0 <= k < args.len() ==> #[trigger] corner_of(args[k], nb) == Ok::<
                Corner,
                LoadingError,
            >(face_of(args, nb)->Ok_0[k]),
    decreases args.len(),
{
    if args.len() > 0 {
        lemma_face_corners(args.drop_last(), nb);
        assert forall|k: int| 0 <= k < args.len() implies #[trigger] corner_of(args[k], nb) == Ok::<
            Corner,
            LoadingError,
        >(face_of(args, nb)->Ok_0[k]) by {
            if k < args.len() - 1 {
                assert(args.drop_last()[k] == args[k]);
            }
        }
    }
}

/// Whether `w` is a run of one or more characters, none of them white space.
pub open spec fn is_word(w: Seq<char>) -> bool {
    w.len() > 0 && forall|j: int| 0 <= j < w.len() ==> !is_space(#[trigger] w[j])
}

/// Every word that a text is cut into is a run of one or more characters,
/// none of them white space.
pub proof fn lemma_words_are_words(s: Seq<char>, i: int)
    requires
        0 <= i <= s.len(),
    ensures
        forall|k: int| 0 <= k < words_from(s, i).len() ==> is_word(#[trigger] words_from(s, i)[k]),
    decreases s.len() - i,
{
    if i < s.len() {
        if is_space(s[i]) {
            lemma_words_are_words(s, i + 1);
            assert(words_from(s, i) == words_from(s, i + 1));
        } else {
            lemma_word_end(s, i);
            let e = word_end(s, i);
            lemma_words_are_words(s, e);
            let first = s.subrange(i, e);
            let rest = words_from(s, e);
            assert(is_word(first)) by {
                assert forall|j: int| 0 <= j < first.len() implies !is_space(#[trigger] first[j]) by {
                    assert(first[j] == s[i + j]);
                }
            }
            assert forall|k: int| 0 <= k < words_from(s, i).len() implies is_word(
                #[trigger] words_from(s, i)[k],
            ) by {
                if k == 0 {
                    assert(words_from(s, i)[0] == first);
                } else {
                    assert(words_from(s, i)[k] == rest[k - 1]);
                }
            }
        }
    } else {
        assert(words_from(s, i).len() == 0);
    }
}

/// Whether `f` holds no `sep`.
pub open spec fn is_field(f: Seq<char>, sep: char) -> bool {
    forall|j: int| 0 <= j < f.len() ==> #[trigger] f[j] != sep
}

/// A text is cut into at least one field, and no field holds the separator.
pub proof fn lemma_fields_are_fields(s: Seq<char>, sep: char, i: int)
    requires
        0 <= i <= s.len(),
    ensures
        fields_from(s, sep, i).len() >= 1,
        forall|k: int|
            0 <= k < fields_from(s, sep, i).len() ==> is_field(
                #[trigger] fields_from(s, sep, i)[k],
                sep,
            ),
    decreases s.len() - i,
{
    lemma_field_end(s, sep, i);
    let e = field_end(s, sep, i);
    let all = fields_from(s, sep, i);
    let first = s.subrange(i, e);
    assert(is_field(first, sep)) by {
        assert forall|j: int| 0 <= j < first.len() implies #[trigger] first[j] != sep by {
            assert(first[j] == s[i + j]);
        }
    }
    if e < s.len() {
        lemma_fields_are_fields(s, sep, e + 1);
        let rest = fields_from(s, sep, e + 1);
        assert forall|k: int| 0 <= k < all.len() implies is_field(#[trigger] all[k], sep) by {
            if k == 0 {
                assert(all[0] == first);
            } else {
                assert(all[k] == rest[k - 1]);
            }
        }
    } else {
        assert(all[0] == first);
    }
}

} // verus!
