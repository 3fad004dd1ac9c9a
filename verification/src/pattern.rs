//! Path templates such as `cats/:id`: their grammar, their compiled form, and
//! positional matching against the segments of a request path.
use vstd::prelude::*;
use crate::text::{characters, join, join_from, split, split_text};

verus! {

/// One segment of a compiled template.
#[derive(Clone, Debug, PartialEq, Eq)]
pub enum Segment {
    /// Matches a path segment equal to the text.
    Literal(String),
    /// `:name` matches any non-empty path segment and binds it to the name.
    Capture(String),
    /// `*name` matches all the path segments that are left and binds them,
    /// joined with `/`, to the name.
    Wildcard(String),
}

/// The mathematical form of a [`Segment`].
pub enum SegmentModel {
    Literal(Seq<char>),
    Capture(Seq<char>),
    Wildcard(Seq<char>),
}

impl View for Segment {
    type V = SegmentModel;

    open spec fn view(&self) -> SegmentModel {
        match self {
            Segment::Literal(text) => SegmentModel::Literal(text@),
            Segment::Capture(name) => SegmentModel::Capture(name@),
            Segment::Wildcard(name) => SegmentModel::Wildcard(name@),
        }
    }
}

impl DeepView for Segment {
    type V = SegmentModel;

    open spec fn deep_view(&self) -> SegmentModel {
        self@
    }
}

/// Why a template was rejected. `position` counts the template's segments
/// from zero and points at the first segment that is at fault.
#[derive(Clone, Copy, Debug, PartialEq, Eq, Structural)]
pub enum CompileError {
    /// The segment is empty, holds a character outside the grammar, has an
    /// empty name, or is a wildcard that is not the last segment.
    InvalidSegment { position: usize },
    /// The segment binds a name that an earlier segment already binds.
    DuplicateCapture { position: usize },
}

/// Characters of a capture name: ASCII letters, digits and `_`.
pub open spec fn name_char(c: char) -> bool {
    ('a' <= c && c <= 'z') || ('A' <= c && c <= 'Z') || ('0' <= c && c <= '9') || c == '_'
}

/// Characters of a literal segment: those of a name and `-`, `.`, `~`.
pub open spec fn literal_char(c: char) -> bool {
    name_char(c) || c == '-' || c == '.' || c == '~'
}

/// A non-empty run of name characters.
pub open spec fn is_name(s: Seq<char>) -> bool {
    s.len() > 0 && forall|i: int| 0 <= i < s.len() ==> name_char(#[trigger] s[i])
}

/// A non-empty run of literal characters.
pub open spec fn is_literal(s: Seq<char>) -> bool {
    s.len() > 0 && forall|i: int| 0 <= i < s.len() ==> literal_char(#[trigger] s[i])
}

/// The segment that one piece of a template denotes, if it denotes one.
pub open spec fn classify(piece: Seq<char>) -> Option<SegmentModel> {
    if piece.len() == 0 {
        None
    } else if piece[0] == ':' {
        if is_name(piece.skip(1)) {
            Some(SegmentModel::Capture(piece.skip(1)))
        } else {
            None
        }
    } else if piece[0] == '*' {
        if is_name(piece.skip(1)) {
            Some(SegmentModel::Wildcard(piece.skip(1)))
        } else {
            None
        }
    } else if is_literal(piece) {
        Some(SegmentModel::Literal(piece))
    } else {
        None
    }
}

/// The name that a segment binds, if it binds one.
pub open spec fn name_of(segment: SegmentModel) -> Option<Seq<char>> {
    match segment {
        SegmentModel::Literal(_) => None,
        SegmentModel::Capture(name) => Some(name),
        SegmentModel::Wildcard(name) => Some(name),
    }
}

/// The name that a piece of a template binds, if it is a capture or a wildcard.
pub open spec fn piece_name(piece: Seq<char>) -> Option<Seq<char>> {
    match classify(piece) {
        Some(segment) => name_of(segment),
        None => None,
    }
}

/// The pieces of a template: none for the empty template, else what lies
/// between its slashes.
pub open spec fn pieces(template: Seq<char>) -> Seq<Seq<char>> {
    if template.len() == 0 {
        Seq::<Seq<char>>::empty()
    } else {
        split(template, '/')
    }
}

/// What is wrong with piece `i` on its own or in view of the pieces before it.
pub open spec fn fault_at(pieces: Seq<Seq<char>>, i: int) -> Option<CompileError> {
    match classify(pieces[i]) {
        None => Some(CompileError::InvalidSegment { position: i as usize }),
        Some(segment) => {
            if segment is Wildcard && i + 1 < pieces.len() {
                Some(CompileError::InvalidSegment { position: i as usize })
            } else if name_of(segment) is Some && exists|j: int|
                0 <= j < i && #[trigger] piece_name(pieces[j]) == name_of(segment) {
                Some(CompileError::DuplicateCapture { position: i as usize })
            } else {
                None
            }
        },
    }
}

/// The fault of the first faulty piece at or after `from`.
pub open spec fn first_fault(pieces: Seq<Seq<char>>, from: int) -> Option<CompileError>
    decreases pieces.len() - from,
{
    if from < 0 || from >= pieces.len() {
        None
    } else if fault_at(pieces, from) is Some {
        fault_at(pieces, from)
    } else {
        first_fault(pieces, from + 1)
    }
}

/// What compiling a template gives: its segments, or the fault of the first
/// faulty piece.
pub open spec fn spec_compile(template: Seq<char>) -> Result<Seq<SegmentModel>, CompileError> {
    let parts = pieces(template);
    match first_fault(parts, 0) {
        Some(error) => Err(error),
        None => Ok(Seq::new(parts.len(), |i: int| classify(parts[i]).unwrap())),
    }
}

/// Whether a segment's text obeys the grammar.
pub open spec fn segment_valid(segment: SegmentModel) -> bool {
    match segment {
        SegmentModel::Literal(text) => is_literal(text),
        SegmentModel::Capture(name) => is_name(name),
        SegmentModel::Wildcard(name) => is_name(name),
    }
}

/// What holds of every compiled template: each segment obeys the grammar, a
/// wildcard stands only at the end, and no name is bound twice.
pub open spec fn well_formed(segments: Seq<SegmentModel>) -> bool {
    &&& forall|i: int| 0 <= i < segments.len() ==> segment_valid(#[trigger] segments[i])
    &&& forall|i: int|
        0 <= i < segments.len() && #[trigger] segments[i] is Wildcard ==> i + 1 == segments.len()
    &&& forall|i: int, j: int|
        0 <= i < j < segments.len() && name_of(#[trigger] segments[i]) is Some ==> name_of(
            #[trigger] segments[j],
        ) != name_of(segments[i])
}

/// Puts `found` in front of what the rest of a match gives, if it gives anything.
pub open spec fn and_then_found(
    found: Seq<(Seq<char>, Seq<char>)>,
    rest: Option<Seq<(Seq<char>, Seq<char>)>>,
) -> Option<Seq<(Seq<char>, Seq<char>)>> {
    match rest {
        Some(more) => Some(found + more),
        None => None,
    }
}

/// What matching a path gives: nothing where the path does not fit, else the
/// bound names with their values, in the order of the template's segments.
///
/// Matching goes by position. A literal takes one segment equal to it, a
/// capture takes one segment that is not empty, and a wildcard at the end
/// takes all the segments that are left, however many, joined with `/`.
pub open spec fn spec_match(pattern: Seq<SegmentModel>, path: Seq<Seq<char>>) -> Option<
    Seq<(Seq<char>, Seq<char>)>,
>
    decreases pattern.len(),
{
    if pattern.len() == 0 {
        if path.len() == 0 {
            Some(Seq::<(Seq<char>, Seq<char>)>::empty())
        } else {
            None
        }
    } else {
        match pattern[0] {
            SegmentModel::Wildcard(name) => {
                if pattern.len() == 1 {
                    Some(seq![(name, join(path, '/'))])
                } else {
                    None
                }
            },
            SegmentModel::Literal(text) => {
                if path.len() > 0 && path[0] == text {
                    spec_match(pattern.skip(1), path.skip(1))
                } else {
                    None
                }
            },
            SegmentModel::Capture(name) => {
                if path.len() > 0 && path[0].len() > 0 {
                    and_then_found(seq![(name, path[0])], spec_match(pattern.skip(1), path.skip(1)))
                } else {
                    None
                }
            },
        }
    }
}

/// Whether two segments differ at most in the name they bind.
pub open spec fn alike(a: SegmentModel, b: SegmentModel) -> bool {
    match (a, b) {
        (SegmentModel::Literal(s), SegmentModel::Literal(t)) => s == t,
        (SegmentModel::Capture(_), SegmentModel::Capture(_)) => true,
        (SegmentModel::Wildcard(_), SegmentModel::Wildcard(_)) => true,
        _ => false,
    }
}

/// Whether two templates are the same up to the names of their captures.
pub open spec fn same_shape(a: Seq<SegmentModel>, b: Seq<SegmentModel>) -> bool {
    a.len() == b.len() && forall|i: int| 0 <= i < a.len() ==> alike(#[trigger] a[i], b[i])
}

/// Whether every segment is a literal.
pub open spec fn all_literal(pattern: Seq<SegmentModel>) -> bool {
    forall|i: int| 0 <= i < pattern.len() ==> #[trigger] pattern[i] is Literal
}

/// The position of the first segment at or after `from` that is not a literal.
pub open spec fn first_bound(pattern: Seq<SegmentModel>, from: int) -> Option<int>
    decreases pattern.len() - from,
{
    if from < 0 || from >= pattern.len() {
        None
    } else if !(pattern[from] is Literal) {
        Some(from)
    } else {
        first_bound(pattern, from + 1)
    }
}

/// A template has a segment that is not a literal exactly when it is not
/// made of literals only.
pub proof fn lemma_first_bound(pattern: Seq<SegmentModel>, from: int)
    requires
        0 <= from,
    ensures
        first_bound(pattern, from) is None <==> forall|i: int|
            from <= i < pattern.len() ==> #[trigger] pattern[i] is Literal,
        first_bound(pattern, from) matches Some(i) ==> from <= i < pattern.len() && !(pattern[i]
            is Literal),
    decreases pattern.len() - from,
{
    if from < pattern.len() {
        lemma_first_bound(pattern, from + 1);
    }
}

/// A segment as it is written in a template.
pub open spec fn segment_text(segment: SegmentModel) -> Seq<char> {
    match segment {
        SegmentModel::Literal(text) => text,
        SegmentModel::Capture(name) => seq![':'] + name,
        SegmentModel::Wildcard(name) => seq!['*'] + name,
    }
}

/// The template that compiles to the segments.
pub open spec fn render(segments: Seq<SegmentModel>) -> Seq<char> {
    join(segments.map_values(|segment: SegmentModel| segment_text(segment)), '/')
}

fn is_name_char(c: char) -> (r: bool)
    ensures
        r == name_char(c),
{
    (c >= 'a' && c <= 'z') || (c >= 'A' && c <= 'Z') || (c >= '0' && c <= '9') || c == '_'
}

fn is_literal_char(c: char) -> (r: bool)
    ensures
        r == literal_char(c),
{
    is_name_char(c) || c == '-' || c == '.' || c == '~'
}

/// Reads one piece of a template.
fn classify_piece(piece: &str) -> (out: Option<Segment>)
    ensures
        out.deep_view() == classify(piece@),
{
    let chars = characters(piece);
    let n = chars.len();
    if n == 0 {
        return None;
    }
    let first = chars[0];
    if first == ':' || first == '*' {
        if n == 1 {
            return None;
        }
        let mut i: usize = 1;
        while i < n
            invariant
                chars@ == piece@,
                n == chars.len(),
                1 <= i <= n,
                first == chars@[0],
                first == ':' || first == '*',
                forall|k: int| 1 <= k < i ==> name_char(chars@[k]),
            decreases n - i,
        {
            if !is_name_char(chars[i]) {
                assert(!name_char(piece@.skip(1)[i - 1]));
                return None;
            }
            i = i + 1;
        }
        let name = piece.substring_char(1, n).to_owned();
        proof {
            assert(piece@.subrange(1, n as int) == piece@.skip(1));
            assert forall|k: int| 0 <= k < piece@.skip(1).len() implies name_char(
                #[trigger] piece@.skip(1)[k],
            ) by {
                assert(piece@.skip(1)[k] == chars@[k + 1]);
            }
        }
        if first == ':' {
            Some(Segment::Capture(name))
        } else {
            Some(Segment::Wildcard(name))
        }
    } else {
        let mut i: usize = 0;
        while i < n
            invariant
                chars@ == piece@,
                n == chars.len(),
                i <= n,
                0 < n,
                first == chars@[0],
                first != ':' && first != '*',
                forall|k: int| 0 <= k < i ==> literal_char(chars@[k]),
            decreases n - i,
        {
            if !is_literal_char(chars[i]) {
                assert(!literal_char(piece@[i as int]));
                return None;
            }
            i = i + 1;
        }
        Some(Segment::Literal(piece.to_owned()))
    }
}

/// Whether one of `segments` binds `name`.
fn binds(segments: &Vec<Segment>, name: &String) -> (found: bool)
    ensures
        found == exists|j: int|
            0 <= j < segments.len() && name_of(#[trigger] segments.deep_view()[j]) == Some(name@),
{
    let mut j: usize = 0;
    while j < segments.len()
        invariant
            j <= segments.len(),
            forall|k: int| 0 <= k < j ==> name_of(#[trigger] segments.deep_view()[k]) != Some(name@),
        decreases segments.len() - j,
    {
        let same = match &segments[j] {
            Segment::Literal(_) => false,
            Segment::Capture(other) => *other == *name,
            Segment::Wildcard(other) => *other == *name,
        };
        if same {
            assert(name_of(segments.deep_view()[j as int]) == Some(name@));
            return true;
        }
        j = j + 1;
    }
    false
}

/// A compiled template.
#[derive(Debug, PartialEq, Eq)]
pub struct PathPattern {
    segments: Vec<Segment>,
}

impl View for PathPattern {
    type V = Seq<SegmentModel>;

    closed spec fn view(&self) -> Seq<SegmentModel> {
        self.segments.deep_view()
    }
}

impl DeepView for PathPattern {
    type V = Seq<SegmentModel>;

    open spec fn deep_view(&self) -> Seq<SegmentModel> {
        self@
    }
}

impl PathPattern {
    /// Every pattern that exists at run time is well formed.
    #[verifier::type_invariant]
    pub open spec fn wf(&self) -> bool {
        well_formed(self@)
    }

    /// Compiles a template. The empty template has no segments; any other is
    /// cut at its slashes, and each piece is a literal, `:name` or `*name`.
    pub fn compile(template: &str) -> (result: Result<PathPattern, CompileError>)
        ensures
            result matches Ok(pattern) ==> spec_compile(template@) == Ok::<
                Seq<SegmentModel>,
                CompileError,
            >(pattern@),
            result matches Err(error) ==> spec_compile(template@) == Err::<
                Seq<SegmentModel>,
                CompileError,
            >(error),
    {
        let parts: Vec<String> = if template.is_empty() {
            Vec::new()
        } else {
            split_text(template, '/')
        };
        let ghost texts = pieces(template@);
        assert(parts.deep_view() == texts);
        let mut segments: Vec<Segment> = Vec::new();
        let mut i: usize = 0;
        while i < parts.len()
            invariant
                i <= parts.len(),
                parts.deep_view() == texts,
                texts == pieces(template@),
                first_fault(texts, 0) == first_fault(texts, i as int),
                segments.len() == i,
                forall|k: int|
                    0 <= k < i ==> classify(texts[k]) == Some(#[trigger] segments.deep_view()[k]),
                forall|k: int| 0 <= k < i ==> fault_at(texts, k) is None,
            decreases parts.len() - i,
        {
            assert(texts[i as int] == parts[i as int]@);
            let segment = match classify_piece(parts[i].as_str()) {
                None => {
                    return Err(CompileError::InvalidSegment { position: i });
                },
                Some(segment) => segment,
            };
            let ghost model = segment@;
            assert(classify(texts[i as int]) == Some(model));
            let duplicate = match &segment {
                Segment::Literal(_) => false,
                Segment::Capture(name) => binds(&segments, name),
                Segment::Wildcard(name) => {
                    if i + 1 < parts.len() {
                        return Err(CompileError::InvalidSegment { position: i });
                    }
                    binds(&segments, name)
                },
            };
            proof {
                let earlier = exists|j: int|
                    0 <= j < i && #[trigger] piece_name(texts[j]) == name_of(model);
                if name_of(model) is Some {
                    if duplicate {
                        let j = choose|j: int|
                            0 <= j < segments.len() && name_of(#[trigger] segments.deep_view()[j])
                                == name_of(model);
                        assert(piece_name(texts[j]) == name_of(model));
                        assert(earlier);
                    } else {
                        assert forall|j: int| 0 <= j < i implies #[trigger] piece_name(texts[j])
                            != name_of(model) by {
                            assert(classify(texts[j]) == Some(segments.deep_view()[j]));
                        }
                        assert(!earlier);
                    }
                }
            }
            if duplicate {
                return Err(CompileError::DuplicateCapture { position: i });
            }
            let ghost before = segments.deep_view();
            segments.push(segment);
            assert(segments.deep_view() == before.push(model));
            i = i + 1;
        }
        proof {
            let compiled = Seq::new(texts.len(), |k: int| classify(texts[k]).unwrap());
            assert(segments.deep_view() == compiled);
            lemma_compiled_well_formed(template@);
        }
        Ok(PathPattern { segments })
    }

    /// The number of segments.
    pub fn len(&self) -> (n: usize)
        ensures
            n == self@.len(),
    {
        self.segments.len()
    }

    /// Matches the segments of a request path against the template.
    pub fn match_path(&self, path: &Vec<String>) -> (result: Option<Vec<(String, String)>>)
        ensures
            result.deep_view() == spec_match(self@, path.deep_view()),
    {
        let ghost pattern = self@;
        let ghost segments = path.deep_view();
        let mut found: Vec<(String, String)> = Vec::new();
        let mut i: usize = 0;
        assert(pattern.skip(0) == pattern);
        assert(segments.skip(0) == segments);
        proof {
            if let Some(all) = spec_match(pattern, segments) {
                assert(Seq::<(Seq<char>, Seq<char>)>::empty() + all == all);
            }
        }
        while i < self.segments.len()
            invariant
                pattern == self@,
                segments == path.deep_view(),
                i <= self.segments.len(),
                i <= path.len(),
                spec_match(pattern, segments) == and_then_found(
                    found.deep_view(),
                    spec_match(pattern.skip(i as int), segments.skip(i as int)),
                ),
            decreases self.segments.len() - i,
        {
            let ghost tail = pattern.skip(i as int);
            let ghost left = segments.skip(i as int);
            let ghost so_far = found.deep_view();
            proof {
                assert(tail[0] == self.segments[i as int]@);
                assert(tail.skip(1) == pattern.skip(i + 1));
                if i < path.len() {
                    assert(left.skip(1) == segments.skip(i + 1));
                    assert(left[0] == path[i as int]@);
                }
            }
            match &self.segments[i] {
                Segment::Wildcard(name) => {
                    if i + 1 < self.segments.len() {
                        return None;
                    }
                    let value = join_from(path, i);
                    found.push((name.clone(), value));
                    proof {
                        assert(left == segments.subrange(i as int, path.len() as int));
                        assert(found.deep_view() == so_far + seq![(name@, join(left, '/'))]);
                    }
                    return Some(found);
                },
                Segment::Literal(text) => {
                    if i >= path.len() || path[i] != *text {
                        return None;
                    }
                },
                Segment::Capture(name) => {
                    if i >= path.len() || path[i].as_str().is_empty() {
                        return None;
                    }
                    found.push((name.clone(), path[i].clone()));
                    proof {
                        let pair = seq![(name@, left[0])];
                        assert(found.deep_view() == so_far + pair);
                        let rest = spec_match(tail.skip(1), left.skip(1));
                        if rest is Some {
                            assert(so_far + (pair + rest.unwrap()) == (so_far + pair)
                                + rest.unwrap());
                        }
                    }
                },
            }
            i = i + 1;
        }
        proof {
            assert(pattern.skip(i as int).len() == 0);
            assert(segments.skip(i as int).len() == path.len() - i);
            assert(found.deep_view() + Seq::<(Seq<char>, Seq<char>)>::empty()
                == found.deep_view());
        }
        if path.len() == i {
            Some(found)
        } else {
            None
        }
    }

    /// Whether the two templates differ at most in the names of their captures.
    pub fn same_shape(&self, other: &PathPattern) -> (same: bool)
        ensures
            same == same_shape(self@, other@),
    {
        if self.segments.len() != other.segments.len() {
            return false;
        }
        let mut i: usize = 0;
        while i < self.segments.len()
            invariant
                i <= self.segments.len(),
                self.segments.len() == other.segments.len(),
                forall|k: int| 0 <= k < i ==> alike(#[trigger] self@[k], other@[k]),
            decreases self.segments.len() - i,
        {
            let same = match (&self.segments[i], &other.segments[i]) {
                (Segment::Literal(s), Segment::Literal(t)) => *s == *t,
                (Segment::Capture(_), Segment::Capture(_)) => true,
                (Segment::Wildcard(_), Segment::Wildcard(_)) => true,
                _ => false,
            };
            assert(same == alike(self@[i as int], other@[i as int]));
            if !same {
                return false;
            }
            i = i + 1;
        }
        true
    }

    /// The position of the first segment that is not a literal, if there is one.
    pub fn first_binding(&self) -> (position: Option<usize>)
        ensures
            position is None <==> all_literal(self@),
            match position {
                Some(i) => first_bound(self@, 0) == Some(i as int),
                None => first_bound(self@, 0) is None,
            },
    {
        let mut i: usize = 0;
        while i < self.segments.len()
            invariant
                i <= self.segments.len(),
                first_bound(self@, 0) == first_bound(self@, i as int),
            decreases self.segments.len() - i,
        {
            match &self.segments[i] {
                Segment::Literal(_) => {},
                _ => {
                    assert(!(self@[i as int] is Literal));
                    proof {
                        lemma_first_bound(self@, 0);
                    }
                    return Some(i);
                },
            }
            i = i + 1;
        }
        proof {
            lemma_first_bound(self@, 0);
        }
        None
    }

    /// The template as text.
    pub fn template(&self) -> (out: String)
        ensures
            out@ == render(self@),
    {
        let ghost texts = self@.map_values(|segment: SegmentModel| segment_text(segment));
        let mut out = String::new();
        let mut i: usize = 0;
        proof {
            reveal_strlit("/");
            reveal_strlit(":");
            reveal_strlit("*");
            assert(texts.take(0) == Seq::<Seq<char>>::empty());
        }
        while i < self.segments.len()
            invariant
                i <= self.segments.len(),
                texts == self@.map_values(|segment: SegmentModel| segment_text(segment)),
                "/"@ == seq!['/'],
                ":"@ == seq![':'],
                "*"@ == seq!['*'],
                out@ == join(texts.take(i as int), '/'),
            decreases self.segments.len() - i,
        {
            proof {
                assert(texts.take(i + 1).drop_last() == texts.take(i as int));
                assert(texts.take(i + 1).last() == segment_text(self.segments[i as int]@));
            }
            if i > 0 {
                out.append("/");
            }
            match &self.segments[i] {
                Segment::Literal(text) => {
                    out.append(text.as_str());
                },
                Segment::Capture(name) => {
                    out.append(":");
                    out.append(name.as_str());
                },
                Segment::Wildcard(name) => {
                    out.append("*");
                    out.append(name.as_str());
                },
            }
            i = i + 1;
        }
        assert(texts.take(i as int) == texts);
        out
    }

    /// The template with the segments of `prefix` in front of it. Nothing
    /// where the prefix holds a segment that is not a literal.
    pub fn under(&self, prefix: &PathPattern) -> (out: Option<PathPattern>)
        ensures
            out is Some <==> all_literal(prefix@),
            out matches Some(pattern) ==> pattern@ == prefix@ + self@,
    {
        match prefix.first_binding() {
            Some(_) => None,
            None => Some(self.prepend(prefix)),
        }
    }

    /// The template with the literal segments of `prefix` in front of it.
    pub(crate) fn prepend(&self, prefix: &PathPattern) -> (out: PathPattern)
        requires
            all_literal(prefix@),
        ensures
            out@ == prefix@ + self@,
    {
        proof {
            use_type_invariant(self);
            use_type_invariant(prefix);
            lemma_prefixed_well_formed(prefix@, self@);
        }
        let mut segments: Vec<Segment> = Vec::new();
        let mut i: usize = 0;
        while i < prefix.segments.len()
            invariant
                i <= prefix.segments.len(),
                segments.deep_view() == prefix@.take(i as int),
            decreases prefix.segments.len() - i,
        {
            let ghost before = segments.deep_view();
            let copy = copy_segment(&prefix.segments[i]);
            segments.push(copy);
            assert(segments.deep_view() == before.push(prefix@[i as int]));
            assert(prefix@.take(i + 1) == prefix@.take(i as int).push(prefix@[i as int]));
            i = i + 1;
        }
        assert(prefix@.take(i as int) == prefix@);
        let mut j: usize = 0;
        while j < self.segments.len()
            invariant
                j <= self.segments.len(),
                segments.deep_view() == prefix@ + self@.take(j as int),
            decreases self.segments.len() - j,
        {
            let ghost before = segments.deep_view();
            let copy = copy_segment(&self.segments[j]);
            segments.push(copy);
            assert(segments.deep_view() == before.push(self@[j as int]));
            assert(self@.take(j + 1) == self@.take(j as int).push(self@[j as int]));
            j = j + 1;
        }
        assert(self@.take(j as int) == self@);
        PathPattern { segments }
    }

    /// A copy of the template.
    pub fn duplicate(&self) -> (out: PathPattern)
        ensures
            out@ == self@,
    {
        proof {
            use_type_invariant(self);
        }
        let mut segments: Vec<Segment> = Vec::new();
        let mut j: usize = 0;
        while j < self.segments.len()
            invariant
                j <= self.segments.len(),
                segments.deep_view() == self@.take(j as int),
            decreases self.segments.len() - j,
        {
            let ghost before = segments.deep_view();
            let copy = copy_segment(&self.segments[j]);
            segments.push(copy);
            assert(segments.deep_view() == before.push(self@[j as int]));
            assert(self@.take(j + 1) == self@.take(j as int).push(self@[j as int]));
            j = j + 1;
        }
        assert(self@.take(j as int) == self@);
        PathPattern { segments }
    }
}

/// A copy of a segment.
fn copy_segment(segment: &Segment) -> (out: Segment)
    ensures
        out@ == segment@,
{
    match segment {
        Segment::Literal(text) => Segment::Literal(text.clone()),
        Segment::Capture(name) => Segment::Capture(name.clone()),
        Segment::Wildcard(name) => Segment::Wildcard(name.clone()),
    }
}

/// Literal segments in front of a well-formed template leave it well formed.
pub proof fn lemma_prefixed_well_formed(prefix: Seq<SegmentModel>, pattern: Seq<SegmentModel>)
    requires
        well_formed(prefix),
        all_literal(prefix),
        well_formed(pattern),
    ensures
        well_formed(prefix + pattern),
{
    let whole = prefix + pattern;
    assert forall|i: int| 0 <= i < whole.len() implies segment_valid(#[trigger] whole[i]) by {
        if i < prefix.len() {
            assert(whole[i] == prefix[i]);
        } else {
            assert(whole[i] == pattern[i - prefix.len()]);
        }
    }
    assert forall|i: int| 0 <= i < whole.len() && #[trigger] whole[i] is Wildcard implies i + 1
        == whole.len() by {
        if i < prefix.len() {
            assert(whole[i] == prefix[i]);
        } else {
            assert(whole[i] == pattern[i - prefix.len()]);
        }
    }
    assert forall|i: int, j: int|
        0 <= i < j < whole.len() && name_of(#[trigger] whole[i]) is Some implies name_of(
        #[trigger] whole[j],
    ) != name_of(whole[i]) by {
        if i < prefix.len() {
            assert(whole[i] == prefix[i]);
        } else {
            assert(whole[i] == pattern[i - prefix.len()]);
            assert(whole[j] == pattern[j - prefix.len()]);
        }
    }
}

/// The segments of a template that compiles are well formed.
pub proof fn lemma_compiled_well_formed(template: Seq<char>)
    requires
        spec_compile(template) is Ok,
    ensures
        well_formed(spec_compile(template)->Ok_0),
{
    let parts = pieces(template);
    let segments = spec_compile(template)->Ok_0;
    lemma_no_fault(parts, 0);
    assert forall|i: int, j: int|
        0 <= i < j < segments.len() && name_of(#[trigger] segments[i]) is Some implies name_of(
        #[trigger] segments[j],
    ) != name_of(segments[i]) by {
        assert(fault_at(parts, j) is None);
        assert(fault_at(parts, i) is None);
        assert(piece_name(parts[i]) == name_of(segments[i]));
    }
    assert forall|i: int| 0 <= i < segments.len() implies segment_valid(
        #[trigger] segments[i],
    ) by {
        assert(fault_at(parts, i) is None);
    }
    assert forall|i: int|
        0 <= i < segments.len() && #[trigger] segments[i] is Wildcard implies i + 1
        == segments.len() by {
        assert(fault_at(parts, i) is None);
    }
}

/// Where no first fault is found from `from` on, no piece from there on is faulty.
pub proof fn lemma_no_fault(pieces: Seq<Seq<char>>, from: int)
    requires
        0 <= from,
        first_fault(pieces, from) is None,
    ensures
        forall|k: int| from <= k < pieces.len() ==> fault_at(pieces, k) is None,
    decreases pieces.len() - from,
{
    if from < pieces.len() {
        lemma_no_fault(pieces, from + 1);
    }
}

} // verus!
