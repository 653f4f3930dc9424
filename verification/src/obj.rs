//! The directive parser and the mesh it builds.
//!
//! A line is read into an [`Entry`]; an entry is appended to an [`ObjData`].
//! What a line means is defined by [`entry_of`], what a whole text means by
//! [`load_text`]; the functions that run are proved to compute exactly that.

use vstd::prelude::*;
use vstd::slice::slice_subrange;
use crate::error::LoadingError;
use crate::index::{index_of, parse_index};
use crate::number::{is_number, one, zero, Scalar};
use crate::text::{chars_of, fields, lines, split_fields, split_lines, split_words, views, words};

verus! {

/// One corner of a face: the index of a vertex, and optionally those of a
/// texture coordinate and of a normal, as they are written (counted from one).
pub type Corner = (usize, Option<usize>, Option<usize>);

/// A point of three coordinates, as literals.
pub type Triple = (Seq<char>, Seq<char>, Seq<char>);

/// A point of four coordinates, as literals.
pub type Quad = (Seq<char>, Seq<char>, Seq<char>, Seq<char>);

/// The keywords that a line may start with.
#[derive(Clone, Copy, Debug, PartialEq, Eq, Structural)]
pub enum Directive {
    /// `v`: a vertex.
    Vertex,
    /// `vn`: a normal.
    Normal,
    /// `vt`: a texture coordinate.
    Texcoord,
    /// `f`: a face.
    Face,
    /// `s`: a smoothing group. Accepted and passed over.
    Smoothing,
    /// `o`: an object name. Accepted and passed over.
    Object,
}

/// What one line contributes to a mesh.
#[derive(Debug)]
pub enum Entry {
    /// A vertex `(x, y, z, w)`.
    Vertex((Scalar, Scalar, Scalar, Scalar)),
    /// A normal `(x, y, z)`.
    Normal((Scalar, Scalar, Scalar)),
    /// A texture coordinate `(u, v, w)`.
    Texcoord((Scalar, Scalar, Scalar)),
    /// A face: its corners in order.
    Face(Vec<Corner>),
    /// Nothing: a comment, a smoothing group or an object name.
    Nothing,
}

/// The mathematical value of an [`Entry`].
pub enum EntryView {
    Vertex(Quad),
    Normal(Triple),
    Texcoord(Triple),
    Face(Seq<Corner>),
    Nothing,
}

/// The mathematical value of an [`ObjData`]: four sequences.
pub struct Mesh {
    pub vertices: Seq<Quad>,
    pub normals: Seq<Triple>,
    pub texcoords: Seq<Triple>,
    pub faces: Seq<Seq<Corner>>,
}

/// A mesh: vertices, normals, texture coordinates and faces, each in the
/// order in which they were read. The indices in a face are kept as written
/// and are not checked against the other three sequences.
#[derive(Debug)]
pub struct ObjData {
    pub vertices: Vec<(Scalar, Scalar, Scalar, Scalar)>,
    pub normals: Vec<(Scalar, Scalar, Scalar)>,
    pub texcoords: Vec<(Scalar, Scalar, Scalar)>,
    pub faces: Vec<Vec<Corner>>,
}

/// The literals of three numbers.
pub open spec fn triple_view(p: (Scalar, Scalar, Scalar)) -> Triple {
    (p.0@, p.1@, p.2@)
}

/// The literals of four numbers.
pub open spec fn quad_view(p: (Scalar, Scalar, Scalar, Scalar)) -> Quad {
    (p.0@, p.1@, p.2@, p.3@)
}

/// The literals of a sequence of numbers.
pub open spec fn scalar_views(numbers: Seq<Scalar>) -> Seq<Seq<char>> {
    Seq::new(numbers.len(), |k: int| numbers[k]@)
}

impl View for Entry {
    type V = EntryView;

    open spec fn view(&self) -> EntryView {
        match *self {
            Entry::Vertex(p) => EntryView::Vertex(quad_view(p)),
            Entry::Normal(p) => EntryView::Normal(triple_view(p)),
            Entry::Texcoord(p) => EntryView::Texcoord(triple_view(p)),
            Entry::Face(corners) => EntryView::Face(corners@),
            Entry::Nothing => EntryView::Nothing,
        }
    }
}

impl Mesh {
    /// The mesh that holds nothing.
    pub open spec fn empty() -> Mesh {
        Mesh {
            vertices: Seq::empty(),
            normals: Seq::empty(),
            texcoords: Seq::empty(),
            faces: Seq::empty(),
        }
    }

    /// This mesh with `entry` appended to the sequence that it belongs to.
    pub open spec fn with(self, entry: EntryView) -> Mesh {
        match entry {
            EntryView::Vertex(p) => Mesh { vertices: self.vertices.push(p), ..self },
            EntryView::Normal(p) => Mesh { normals: self.normals.push(p), ..self },
            EntryView::Texcoord(p) => Mesh { texcoords: self.texcoords.push(p), ..self },
            EntryView::Face(corners) => Mesh { faces: self.faces.push(corners), ..self },
            EntryView::Nothing => self,
        }
    }

    /// Whether each sequence of this mesh is the beginning of the same
    /// sequence of `other`.
    pub open spec fn is_prefix_of(self, other: Mesh) -> bool {
        &&& self.vertices.is_prefix_of(other.vertices)
        &&& self.normals.is_prefix_of(other.normals)
        &&& self.texcoords.is_prefix_of(other.texcoords)
        &&& self.faces.is_prefix_of(other.faces)
    }
}

impl View for ObjData {
    type V = Mesh;

    open spec fn view(&self) -> Mesh {
        Mesh {
            vertices: Seq::new(self.vertices@.len(), |k: int| quad_view(self.vertices@[k])),
            normals: Seq::new(self.normals@.len(), |k: int| triple_view(self.normals@[k])),
            texcoords: Seq::new(self.texcoords@.len(), |k: int| triple_view(self.texcoords@[k])),
            faces: Seq::new(self.faces@.len(), |k: int| self.faces@[k]@),
        }
    }
}

/// The directive that a keyword names, if it names one.
pub open spec fn directive_of(keyword: Seq<char>) -> Option<Directive> {
    if keyword == seq!['v'] {
        Some(Directive::Vertex)
    } else if keyword == seq!['v', 'n'] {
        Some(Directive::Normal)
    } else if keyword == seq!['v', 't'] {
        Some(Directive::Texcoord)
    } else if keyword == seq!['f'] {
        Some(Directive::Face)
    } else if keyword == seq!['s'] {
        Some(Directive::Smoothing)
    } else if keyword == seq!['o'] {
        Some(Directive::Object)
    } else {
        None
    }
}

/// Whether every one of `args` is a number.
pub open spec fn all_numbers(args: Seq<Seq<char>>) -> bool {
    forall|k: int| 0 <= k < args.len() ==> is_number(#[trigger] args[k])
}

/// The arguments of a geometry directive as numbers: all of them, or the
/// error of line `nb` if one of them is no number.
pub open spec fn numbers_of(args: Seq<Seq<char>>, nb: usize) -> Result<
    Seq<Seq<char>>,
    LoadingError,
> {
    if all_numbers(args) {
        Ok(args)
    } else {
        Err(LoadingError::Parse(nb))
    }
}

/// The vertex that the numbers of a `v` line give: four coordinates as they
/// stand, or three with the fourth set to one.
pub open spec fn vertex_of(numbers: Seq<Seq<char>>, nb: usize) -> Result<Quad, LoadingError> {
    if numbers.len() == 4 {
        Ok((numbers[0], numbers[1], numbers[2], numbers[3]))
    } else if numbers.len() == 3 {
        Ok((numbers[0], numbers[1], numbers[2], one()))
    } else {
        Err(LoadingError::WrongNumberOfArguments(nb))
    }
}

/// The normal that the numbers of a `vn` line give: three coordinates.
pub open spec fn normal_of(numbers: Seq<Seq<char>>, nb: usize) -> Result<Triple, LoadingError> {
    if numbers.len() == 3 {
        Ok((numbers[0], numbers[1], numbers[2]))
    } else {
        Err(LoadingError::WrongNumberOfArguments(nb))
    }
}

/// The texture coordinate that the numbers of a `vt` line give: three
/// coordinates as they stand, or two with the third set to zero.
pub open spec fn texcoord_of(numbers: Seq<Seq<char>>, nb: usize) -> Result<Triple, LoadingError> {
    if numbers.len() == 3 {
        Ok((numbers[0], numbers[1], numbers[2]))
    } else if numbers.len() == 2 {
        Ok((numbers[0], numbers[1], zero()))
    } else {
        Err(LoadingError::WrongNumberOfArguments(nb))
    }
}

/// The corner that one argument of an `f` line denotes. The argument must
/// have three fields between slashes. The first must be an index. The second
/// and the third are an index or count as absent.
pub open spec fn corner_of(token: Seq<char>, nb: usize) -> Result<Corner, LoadingError> {
    let f = fields(token, '/');
    if f.len() != 3 {
        Err(LoadingError::WrongNumberOfArguments(nb))
    } else {
        match index_of(f[0]) {
            None => Err(LoadingError::Parse(nb)),
            Some(v) => Ok((v, index_of(f[1]), index_of(f[2]))),
        }
    }
}

/// The face that the arguments of an `f` line denote: the corner of each
/// argument, or the error of the first argument that denotes none.
pub open spec fn face_of(args: Seq<Seq<char>>, nb: usize) -> Result<Seq<Corner>, LoadingError>
    decreases args.len(),
{
    if args.len() == 0 {
        Ok(Seq::empty())
    } else {
        match face_of(args.drop_last(), nb) {
            Err(e) => Err(e),
            Ok(corners) => match corner_of(args.last(), nb) {
                Err(e) => Err(e),
                Ok(corner) => Ok(corners.push(corner)),
            },
        }
    }
}

/// What a directive makes of its arguments on line `nb`.
pub open spec fn directive_entry(directive: Directive, args: Seq<Seq<char>>, nb: usize) -> Result<
    EntryView,
    LoadingError,
> {
    match directive {
        Directive::Vertex => match numbers_of(args, nb) {
            Err(e) => Err(e),
            Ok(numbers) => match vertex_of(numbers, nb) {
                Err(e) => Err(e),
                Ok(p) => Ok(EntryView::Vertex(p)),
            },
        },
        Directive::Normal => match numbers_of(args, nb) {
            Err(e) => Err(e),
            Ok(numbers) => match normal_of(numbers, nb) {
                Err(e) => Err(e),
                Ok(p) => Ok(EntryView::Normal(p)),
            },
        },
        Directive::Texcoord => match numbers_of(args, nb) {
            Err(e) => Err(e),
            Ok(numbers) => match texcoord_of(numbers, nb) {
                Err(e) => Err(e),
                Ok(p) => Ok(EntryView::Texcoord(p)),
            },
        },
        Directive::Face => match face_of(args, nb) {
            Err(e) => Err(e),
            Ok(corners) => Ok(EntryView::Face(corners)),
        },
        Directive::Smoothing => Ok(EntryView::Nothing),
        Directive::Object => Ok(EntryView::Nothing),
    }
}

/// Whether `line` is a comment: its first character is `#`.
pub open spec fn is_comment(line: Seq<char>) -> bool {
    line.len() > 0 && line[0] == '#'
}

/// What line number `nb` contributes, or why it is refused.
///
/// A comment contributes nothing. Any other line is cut into words; the first
/// is the keyword and the rest are its arguments. A line without a word, or
/// with a keyword that names no directive, is invalid.
pub open spec fn entry_of(line: Seq<char>, nb: usize) -> Result<EntryView, LoadingError> {
    if is_comment(line) {
        Ok(EntryView::Nothing)
    } else if words(line).len() == 0 {
        Err(LoadingError::InvalidLine(nb))
    } else {
        match directive_of(words(line)[0]) {
            None => Err(LoadingError::InvalidLine(nb)),
            Some(directive) => directive_entry(directive, words(line).skip(1), nb),
        }
    }
}

/// The mesh that `lines` build, numbered from zero, or the error of the first
/// line that is refused.
pub open spec fn load_lines(lines: Seq<Seq<char>>) -> Result<Mesh, LoadingError>
    decreases lines.len(),
{
    if lines.len() == 0 {
        Ok(Mesh::empty())
    } else {
        match load_lines(lines.drop_last()) {
            Err(e) => Err(e),
            Ok(mesh) => match entry_of(lines.last(), (lines.len() - 1) as usize) {
                Err(e) => Err(e),
                Ok(entry) => Ok(mesh.with(entry)),
            },
        }
    }
}

/// The mesh that a text describes, or the error of its first refused line.
pub open spec fn load_text(text: Seq<char>) -> Result<Mesh, LoadingError> {
    load_lines(lines(text))
}

/// A face that fails on some of its first arguments fails in the same way on
/// all of them.
pub proof fn lemma_face_fails_early(args: Seq<Seq<char>>, nb: usize, n: int)
    requires
        0 <= n <= args.len(),
        face_of(args.take(n), nb) is Err,
    ensures
        face_of(args, nb) == face_of(args.take(n), nb),
    decreases args.len() - n,
{
    if n == args.len() {
        assert(args.take(n) =~= args);
    } else {
        assert(args.drop_last().take(n) =~= args.take(n));
        lemma_face_fails_early(args.drop_last(), nb, n);
    }
}

/// A text that fails on some of its first lines fails in the same way as a
/// whole.
pub proof fn lemma_load_fails_early(lines: Seq<Seq<char>>, n: int)
    requires
        0 <= n <= lines.len(),
        load_lines(lines.take(n)) is Err,
    ensures
        load_lines(lines) == load_lines(lines.take(n)),
    decreases lines.len() - n,
{
    if n == lines.len() {
        assert(lines.take(n) =~= lines);
    } else {
        assert(lines.drop_last().take(n) =~= lines.take(n));
        lemma_load_fails_early(lines.drop_last(), n);
    }
}

/// Names the directive of a keyword.
pub fn classify(keyword: &[char]) -> (r: Option<Directive>)
    ensures
        r == directive_of(keyword@),
{
    let ghost k = keyword@;
    proof {
        assert(seq!['v'].len() == 1 && seq!['f'].len() == 1 && seq!['s'].len() == 1 && seq![
            'o',
        ].len() == 1);
        assert(seq!['v', 'n'].len() == 2 && seq!['v', 't'].len() == 2);
        assert(seq!['v'][0] == 'v' && seq!['f'][0] == 'f' && seq!['s'][0] == 's' && seq!['o'][0]
            == 'o');
        assert(seq!['v', 'n'][0] == 'v' && seq!['v', 'n'][1] == 'n');
        assert(seq!['v', 't'][0] == 'v' && seq!['v', 't'][1] == 't');
    }
    if keyword.len() == 1 {
        let c = keyword[0];
        if c == 'v' {
            assert(k =~= seq!['v']);
            Some(Directive::Vertex)
        } else if c == 'f' {
            assert(k =~= seq!['f']);
            Some(Directive::Face)
        } else if c == 's' {
            assert(k =~= seq!['s']);
            Some(Directive::Smoothing)
        } else if c == 'o' {
            assert(k =~= seq!['o']);
            Some(Directive::Object)
        } else {
            None
        }
    } else if keyword.len() == 2 && keyword[0] == 'v' {
        let c = keyword[1];
        if c == 'n' {
            assert(k =~= seq!['v', 'n']);
            Some(Directive::Normal)
        } else if c == 't' {
            assert(k =~= seq!['v', 't']);
            Some(Directive::Texcoord)
        } else {
            None
        }
    } else {
        None
    }
}

/// Reads every argument as a number. The result holds the numbers in the
/// order of the arguments; the first argument that is no number ends the
/// reading with the error of line `nb`.
pub fn parse(args: &[Vec<char>], nb: usize) -> (r: Result<Vec<Scalar>, LoadingError>)
    ensures
        match r {
            Ok(numbers) => numbers_of(views(args@), nb) == Ok::<Seq<Seq<char>>, LoadingError>(
                scalar_views(numbers@),
            ),
            Err(e) => numbers_of(views(args@), nb) == Err::<Seq<Seq<char>>, LoadingError>(e),
        },
{
    let mut numbers: Vec<Scalar> = Vec::new();
    let mut k: usize = 0;
    while k < args.len()
        invariant
            k <= args@.len(),
            numbers@.len() == k,
            forall|j: int| 0 <= j < k ==> is_number(#[trigger] views(args@)[j]),
            forall|j: int| 0 <= j < k ==> #[trigger] numbers@[j]@ == args@[j]@,
        decreases args@.len() - k,
    {
        match Scalar::parse(args[k].as_slice()) {
            Some(number) => {
                numbers.push(number);
            },
            None => {
                assert(!is_number(views(args@)[k as int]));
                return Err(LoadingError::Parse(nb));
            },
        }
        k += 1;
    }
    assert(scalar_views(numbers@) =~= views(args@));
    Ok(numbers)
}

/// Makes a vertex of the numbers of a `v` line: of four as they stand, of
/// three with the fourth coordinate set to one. Any other count is refused.
pub fn vertex(numbers: Vec<Scalar>, nb: usize) -> (r: Result<
    (Scalar, Scalar, Scalar, Scalar),
    LoadingError,
>)
    ensures
        match r {
            Ok(p) => vertex_of(scalar_views(numbers@), nb) == Ok::<Quad, LoadingError>(
                quad_view(p),
            ),
            Err(e) => vertex_of(scalar_views(numbers@), nb) == Err::<Quad, LoadingError>(e),
        },
{
    let mut rest = numbers;
    if rest.len() == 4 {
        let w = rest.pop().unwrap();
        let z = rest.pop().unwrap();
        let y = rest.pop().unwrap();
        let x = rest.pop().unwrap();
        Ok((x, y, z, w))
    } else if rest.len() == 3 {
        let z = rest.pop().unwrap();
        let y = rest.pop().unwrap();
        let x = rest.pop().unwrap();
        Ok((x, y, z, Scalar::one()))
    } else {
        Err(LoadingError::WrongNumberOfArguments(nb))
    }
}

/// Makes a normal of the numbers of a `vn` line, which must be three.
pub fn normal(numbers: Vec<Scalar>, nb: usize) -> (r: Result<
    (Scalar, Scalar, Scalar),
    LoadingError,
>)
    ensures
        match r {
            Ok(p) => normal_of(scalar_views(numbers@), nb) == Ok::<Triple, LoadingError>(
                triple_view(p),
            ),
            Err(e) => normal_of(scalar_views(numbers@), nb) == Err::<Triple, LoadingError>(e),
        },
{
    let mut rest = numbers;
    if rest.len() == 3 {
        let z = rest.pop().unwrap();
        let y = rest.pop().unwrap();
        let x = rest.pop().unwrap();
        Ok((x, y, z))
    } else {
        Err(LoadingError::WrongNumberOfArguments(nb))
    }
}

/// Makes a texture coordinate of the numbers of a `vt` line: of three as they
/// stand, of two with the third coordinate set to zero. Any other count is
/// refused.
pub fn texcoord(numbers: Vec<Scalar>, nb: usize) -> (r: Result<
    (Scalar, Scalar, Scalar),
    LoadingError,
>)
    ensures
        match r {
            Ok(p) => texcoord_of(scalar_views(numbers@), nb) == Ok::<Triple, LoadingError>(
                triple_view(p),
            ),
            Err(e) => texcoord_of(scalar_views(numbers@), nb) == Err::<Triple, LoadingError>(e),
        },
{
    let mut rest = numbers;
    if rest.len() == 3 {
        let w = rest.pop().unwrap();
        let v = rest.pop().unwrap();
        let u = rest.pop().unwrap();
        Ok((u, v, w))
    } else if rest.len() == 2 {
        let v = rest.pop().unwrap();
        let u = rest.pop().unwrap();
        Ok((u, v, Scalar::zero()))
    } else {
        Err(LoadingError::WrongNumberOfArguments(nb))
    }
}

/// Reads one corner of a face.
pub fn parse_corner(token: &[char], nb: usize) -> (r: Result<Corner, LoadingError>)
    ensures
        r == corner_of(token@, nb),
{
    let parts = split_fields(token, '/');
    if parts.len() != 3 {
        return Err(LoadingError::WrongNumberOfArguments(nb));
    }
    assert(views(parts@)[0] == parts@[0]@);
    assert(views(parts@)[1] == parts@[1]@);
    assert(views(parts@)[2] == parts@[2]@);
    let v = match parse_index(parts[0].as_slice()) {
        Some(v) => v,
        None => {
            return Err(LoadingError::Parse(nb));
        },
    };
    let vt = parse_index(parts[1].as_slice());
    let vn = parse_index(parts[2].as_slice());
    Ok((v, vt, vn))
}

/// Reads the corners of a face, one from each argument.
pub fn parse_face(args: &[Vec<char>], nb: usize) -> (r: Result<Vec<Corner>, LoadingError>)
    ensures
        match r {
            Ok(corners) => face_of(views(args@), nb) == Ok::<Seq<Corner>, LoadingError>(corners@),
            Err(e) => face_of(views(args@), nb) == Err::<Seq<Corner>, LoadingError>(e),
        },
{
    let ghost all = views(args@);
    let mut corners: Vec<Corner> = Vec::new();
    let mut k: usize = 0;
    assert(all.take(0) =~= Seq::<Seq<char>>::empty());
    while k < args.len()
        invariant
            k <= args@.len(),
            all == views(args@),
            face_of(all.take(k as int), nb) == Ok::<Seq<Corner>, LoadingError>(corners@),
        decreases args@.len() - k,
    {
        let corner = parse_corner(args[k].as_slice(), nb);
        proof {
            let longer = all.take(k + 1);
            assert(longer.drop_last() =~= all.take(k as int));
            assert(longer.last() == args@[k as int]@);
        }
        match corner {
            Ok(c) => {
                corners.push(c);
            },
            Err(e) => {
                proof {
                    lemma_face_fails_early(all, nb, k + 1);
                }
                return Err(e);
            },
        }
        k += 1;
    }
    assert(all.take(k as int) =~= all);
    Ok(corners)
}

/// Reads the arguments of a directive.
pub fn parse_directive(directive: Directive, args: &[Vec<char>], nb: usize) -> (r: Result<
    Entry,
    LoadingError,
>)
    ensures
        match r {
            Ok(entry) => directive_entry(directive, views(args@), nb) == Ok::<
                EntryView,
                LoadingError,
            >(entry@),
            Err(e) => directive_entry(directive, views(args@), nb) == Err::<
                EntryView,
                LoadingError,
            >(e),
        },
{
    match directive {
        Directive::Vertex => {
            let numbers = parse(args, nb)?;
            let p = vertex(numbers, nb)?;
            Ok(Entry::Vertex(p))
        },
        Directive::Normal => {
            let numbers = parse(args, nb)?;
            let p = normal(numbers, nb)?;
            Ok(Entry::Normal(p))
        },
        Directive::Texcoord => {
            let numbers = parse(args, nb)?;
            let p = texcoord(numbers, nb)?;
            Ok(Entry::Texcoord(p))
        },
        Directive::Face => {
            let corners = parse_face(args, nb)?;
            Ok(Entry::Face(corners))
        },
        Directive::Smoothing => Ok(Entry::Nothing),
        Directive::Object => Ok(Entry::Nothing),
    }
}

/// Reads line number `nb`, given as characters.
pub fn parse_chars(line: &[char], nb: usize) -> (r: Result<Entry, LoadingError>)
    ensures
        match r {
            Ok(entry) => entry_of(line@, nb) == Ok::<EntryView, LoadingError>(entry@),
            Err(e) => entry_of(line@, nb) == Err::<EntryView, LoadingError>(e),
        },
{
    if line.len() > 0 && line[0] == '#' {
        return Ok(Entry::Nothing);
    }
    let tokens = split_words(line);
    if tokens.len() == 0 {
        return Err(LoadingError::InvalidLine(nb));
    }
    assert(views(tokens@)[0] == tokens@[0]@);
    let directive = match classify(tokens[0].as_slice()) {
        Some(d) => d,
        None => {
            return Err(LoadingError::InvalidLine(nb));
        },
    };
    let args = slice_subrange(tokens.as_slice(), 1, tokens.len());
    assert(views(args@) =~= words(line@).skip(1));
    parse_directive(directive, args, nb)
}

/// Reads line number `nb`.
pub fn parse_line(line: &str, nb: usize) -> (r: Result<Entry, LoadingError>)
    ensures
        match r {
            Ok(entry) => entry_of(line@, nb) == Ok::<EntryView, LoadingError>(entry@),
            Err(e) => entry_of(line@, nb) == Err::<EntryView, LoadingError>(e),
        },
{
    let chars = chars_of(line);
    parse_chars(chars.as_slice(), nb)
}

impl ObjData {
    /// Constructs a new empty `ObjData`.
    pub fn new() -> (r: ObjData)
        ensures
            r@ == Mesh::empty(),
    {
        let r = ObjData {
            vertices: Vec::new(),
            normals: Vec::new(),
            texcoords: Vec::new(),
            faces: Vec::new(),
        };
        assert(r@.vertices =~= Seq::empty());
        assert(r@.normals =~= Seq::empty());
        assert(r@.texcoords =~= Seq::empty());
        assert(r@.faces =~= Seq::empty());
        r
    }

    /// Appends `entry` to the sequence that it belongs to. The three others
    /// stay as they are, and so does what the sequence held before.
    pub fn push(&mut self, entry: Entry)
        ensures
            final(self)@ == old(self)@.with(entry@),
    {
        match entry {
            Entry::Vertex(p) => {
                self.vertices.push(p);
                assert(self@.vertices =~= old(self)@.vertices.push(quad_view(p)));
            },
            Entry::Normal(p) => {
                self.normals.push(p);
                assert(self@.normals =~= old(self)@.normals.push(triple_view(p)));
            },
            Entry::Texcoord(p) => {
                self.texcoords.push(p);
                assert(self@.texcoords =~= old(self)@.texcoords.push(triple_view(p)));
            },
            Entry::Face(corners) => {
                self.faces.push(corners);
                assert(self@.faces =~= old(self)@.faces.push(corners@));
            },
            Entry::Nothing => {},
        }
    }

    /// Reads line number `nb` and appends what it contributes. A line that is
    /// refused leaves the mesh as it was.
    pub fn process_line(&mut self, line: &str, nb: usize) -> (r: Result<(), LoadingError>)
        ensures
            match r {
                Ok(_) => entry_of(line@, nb) is Ok && final(self)@ == old(self)@.with(
                    entry_of(line@, nb)->Ok_0,
                ),
                Err(e) => entry_of(line@, nb) == Err::<EntryView, LoadingError>(e) && *final(self)
                    == *old(self),
            },
    {
        let entry = parse_line(line, nb)?;
        self.push(entry);
        Ok(())
    }

    /// Loads a mesh from a text. The lines are read in order and numbered
    /// from zero; the first line that is refused ends the load with its error,
    /// and nothing of the mesh is handed out.
    pub fn load(text: &str) -> (r: Result<ObjData, LoadingError>)
        ensures
            match r {
                Ok(data) => load_text(text@) == Ok::<Mesh, LoadingError>(data@),
                Err(e) => load_text(text@) == Err::<Mesh, LoadingError>(e),
            },
    {
        let chars = chars_of(text);
        let rows = split_lines(chars.as_slice());
        let ghost all = views(rows@);
        let mut data = ObjData::new();
        let mut nb: usize = 0;
        assert(all.take(0) =~= Seq::<Seq<char>>::empty());
        while nb < rows.len()
            invariant
                nb <= rows@.len(),
                all == views(rows@),
                all == lines(text@),
                load_lines(all.take(nb as int)) == Ok::<Mesh, LoadingError>(data@),
            decreases rows@.len() - nb,
        {
            let entry = parse_chars(rows[nb].as_slice(), nb);
            proof {
                let longer = all.take(nb + 1);
                assert(longer.drop_last() =~= all.take(nb as int));
                assert(longer.last() == rows@[nb as int]@);
            }
            match entry {
                Ok(entry) => {
                    data.push(entry);
                },
                Err(e) => {
                    proof {
                        lemma_load_fails_early(all, nb + 1);
                    }
                    return Err(e);
                },
            }
            nb += 1;
        }
        assert(all.take(nb as int) =~= all);
        Ok(data)
    }
}

} // verus!
