//! What holds of every template and every path: literal templates match
//! themselves only, a template matches each path made from it, and text and
//! compiled form determine one another.
use vstd::prelude::*;
use crate::pattern::{
    all_literal, classify, fault_at, first_fault, lemma_compiled_well_formed, lemma_no_fault,
    literal_char, name_char,
    name_of, piece_name, pieces, render, segment_text, segment_valid, spec_compile, spec_match,
    well_formed, CompileError, SegmentModel,
};
use crate::text::{free_of, join, lemma_join_split, lemma_split_join};

verus! {

/// A template of literal segments matches a path exactly when the path is,
/// segment for segment, the template; and then it binds nothing.
pub proof fn lemma_literal_template_matches_itself(
    pattern: Seq<SegmentModel>,
    path: Seq<Seq<char>>,
)
    requires
        all_literal(pattern),
    ensures
        spec_match(pattern, path) is Some <==> path == pattern.map_values(
            |segment: SegmentModel| segment_text(segment),
        ),
        spec_match(pattern, path) is Some ==> spec_match(pattern, path)
            == Some(Seq::<(Seq<char>, Seq<char>)>::empty()),
    decreases pattern.len(),
{
    let texts = pattern.map_values(|segment: SegmentModel| segment_text(segment));
    if pattern.len() == 0 {
        if path.len() == 0 {
            assert(path == texts);
        }
    } else {
        let rest = pattern.skip(1);
        assert(pattern[0] is Literal);
        assert(all_literal(rest)) by {
            assert forall|i: int| 0 <= i < rest.len() implies #[trigger] rest[i] is Literal by {
                assert(rest[i] == pattern[i + 1]);
            }
        }
        let rest_texts = rest.map_values(|segment: SegmentModel| segment_text(segment));
        assert(rest_texts == texts.skip(1));
        if path.len() > 0 {
            lemma_literal_template_matches_itself(rest, path.skip(1));
            if path == texts {
                assert(path[0] == texts[0]);
            }
            if path[0] == texts[0] && path.skip(1) == rest_texts {
                assert(path == texts) by {
                    assert forall|i: int| 0 <= i < path.len() implies path[i] == texts[i] by {
                        if i > 0 {
                            assert(path[i] == path.skip(1)[i - 1]);
                            assert(texts[i] == texts.skip(1)[i - 1]);
                        }
                    }
                    assert(path.len() == path.skip(1).len() + 1);
                }
            }
        }
    }
}

/// The path that a template stands for once every capture has a value:
/// a literal gives its text, a capture the value under its name, and a
/// wildcard the segments of `rest`.
pub open spec fn fill(
    pattern: Seq<SegmentModel>,
    values: Map<Seq<char>, Seq<char>>,
    rest: Seq<Seq<char>>,
) -> Seq<Seq<char>>
    decreases pattern.len(),
{
    if pattern.len() == 0 {
        Seq::<Seq<char>>::empty()
    } else {
        match pattern[0] {
            SegmentModel::Literal(text) => seq![text] + fill(pattern.skip(1), values, rest),
            SegmentModel::Capture(name) => seq![values[name]] + fill(
                pattern.skip(1),
                values,
                rest,
            ),
            SegmentModel::Wildcard(_) => rest,
        }
    }
}

/// The names of a template with the values they were given, in the order of
/// the segments; the wildcard's value is `rest` joined with `/`.
pub open spec fn filled(
    pattern: Seq<SegmentModel>,
    values: Map<Seq<char>, Seq<char>>,
    rest: Seq<Seq<char>>,
) -> Seq<(Seq<char>, Seq<char>)>
    decreases pattern.len(),
{
    if pattern.len() == 0 {
        Seq::<(Seq<char>, Seq<char>)>::empty()
    } else {
        match pattern[0] {
            SegmentModel::Literal(_) => filled(pattern.skip(1), values, rest),
            SegmentModel::Capture(name) => seq![(name, values[name])] + filled(
                pattern.skip(1),
                values,
                rest,
            ),
            SegmentModel::Wildcard(name) => seq![(name, join(rest, '/'))],
        }
    }
}

/// A well-formed template without its first segment is well formed.
pub proof fn lemma_well_formed_skip(pattern: Seq<SegmentModel>)
    requires
        well_formed(pattern),
        pattern.len() > 0,
    ensures
        well_formed(pattern.skip(1)),
{
    let rest = pattern.skip(1);
    assert forall|i: int| 0 <= i < rest.len() implies segment_valid(#[trigger] rest[i]) by {
        assert(rest[i] == pattern[i + 1]);
    }
    assert forall|i: int| 0 <= i < rest.len() && #[trigger] rest[i] is Wildcard implies i + 1
        == rest.len() by {
        assert(rest[i] == pattern[i + 1]);
    }
    assert forall|i: int, j: int|
        0 <= i < j < rest.len() && name_of(#[trigger] rest[i]) is Some implies name_of(
        #[trigger] rest[j],
    ) != name_of(rest[i]) by {
        assert(rest[i] == pattern[i + 1]);
        assert(rest[j] == pattern[j + 1]);
    }
}

/// A template matches the path made from it by putting a non-empty value in
/// place of each capture, and the match gives those values back unchanged.
pub proof fn lemma_match_recovers_values(
    pattern: Seq<SegmentModel>,
    values: Map<Seq<char>, Seq<char>>,
    rest: Seq<Seq<char>>,
)
    requires
        well_formed(pattern),
        forall|i: int|
            0 <= i < pattern.len() ==> (#[trigger] pattern[i] matches SegmentModel::Capture(name)
                ==> values[name].len() > 0),
    ensures
        spec_match(pattern, fill(pattern, values, rest)) == Some(filled(pattern, values, rest)),
    decreases pattern.len(),
{
    if pattern.len() > 0 {
        let tail = pattern.skip(1);
        lemma_well_formed_skip(pattern);
        let head = pattern[0];
        match head {
            SegmentModel::Wildcard(_) => {
                assert(pattern.len() == 1);
            },
            _ => {
                assert forall|i: int| 0 <= i < tail.len() implies (
                #[trigger] tail[i] matches SegmentModel::Capture(name) ==> values[name].len()
                    > 0) by {
                    assert(tail[i] == pattern[i + 1]);
                }
                lemma_match_recovers_values(tail, values, rest);
                let path = fill(pattern, values, rest);
                assert(path.skip(1) == fill(tail, values, rest));
            },
        }
    }
}

/// A template that compiles matches the path made from it by putting a
/// non-empty value in place of each capture, and the match gives those
/// values back unchanged.
pub proof fn lemma_compiled_template_recovers_values(
    template: Seq<char>,
    values: Map<Seq<char>, Seq<char>>,
    rest: Seq<Seq<char>>,
)
    requires
        spec_compile(template) is Ok,
        forall|i: int|
            0 <= i < spec_compile(template)->Ok_0.len() ==> (
            #[trigger] spec_compile(template)->Ok_0[i] matches SegmentModel::Capture(name)
                ==> values[name].len() > 0),
    ensures
        spec_match(
            spec_compile(template)->Ok_0,
            fill(spec_compile(template)->Ok_0, values, rest),
        ) == Some(filled(spec_compile(template)->Ok_0, values, rest)),
{
    lemma_compiled_well_formed(template);
    lemma_match_recovers_values(spec_compile(template)->Ok_0, values, rest);
}

/// Joined pieces are not empty where the first of them is not.
proof fn lemma_join_not_empty(parts: Seq<Seq<char>>, sep: char)
    requires
        parts.len() > 0,
        parts[0].len() > 0,
    ensures
        join(parts, sep).len() > 0,
    decreases parts.len(),
{
    if parts.len() > 1 {
        assert(join(parts, sep) == join(parts.drop_last(), sep) + seq![sep] + parts.last());
    }
}

/// Where no piece from `from` on is faulty, no first fault is found there.
proof fn lemma_first_fault_none(parts: Seq<Seq<char>>, from: int)
    requires
        0 <= from,
        forall|k: int| from <= k < parts.len() ==> fault_at(parts, k) is None,
    ensures
        first_fault(parts, from) is None,
    decreases parts.len() - from,
{
    if from < parts.len() {
        lemma_first_fault_none(parts, from + 1);
    }
}

/// Reading a segment's text gives the segment.
proof fn lemma_classify_text(segment: SegmentModel)
    requires
        segment_valid(segment),
    ensures
        classify(segment_text(segment)) == Some(segment),
        segment_text(segment).len() > 0,
        forall|j: int|
            0 <= j < segment_text(segment).len() ==> #[trigger] segment_text(segment)[j] != '/',
{
    let text = segment_text(segment);
    match segment {
        SegmentModel::Literal(t) => {
            assert(literal_char(t[0]));
        },
        SegmentModel::Capture(name) => {
            assert(text.skip(1) == name);
            assert forall|j: int| 0 <= j < text.len() implies #[trigger] text[j] != '/' by {
                if j > 0 {
                    assert(name_char(name[j - 1]));
                }
            }
        },
        SegmentModel::Wildcard(name) => {
            assert(text.skip(1) == name);
            assert forall|j: int| 0 <= j < text.len() implies #[trigger] text[j] != '/' by {
                if j > 0 {
                    assert(name_char(name[j - 1]));
                }
            }
        },
    }
}

/// The text of a well-formed template compiles to the template.
pub proof fn lemma_compile_render(segments: Seq<SegmentModel>)
    requires
        well_formed(segments),
    ensures
        spec_compile(render(segments)) == Ok::<Seq<SegmentModel>, CompileError>(segments),
{
    let texts = segments.map_values(|segment: SegmentModel| segment_text(segment));
    let template = render(segments);
    let parts = pieces(template);
    if segments.len() == 0 {
        assert(parts.len() == 0);
    } else {
        assert forall|i: int| 0 <= i < texts.len() implies classify(#[trigger] texts[i]) == Some(
            segments[i],
        ) && texts[i].len() > 0 by {
            lemma_classify_text(segments[i]);
        }
        assert(free_of(texts, '/')) by {
            assert forall|i: int, j: int| 0 <= i < texts.len() && 0 <= j < texts[i].len()
                implies texts[i][j] != '/' by {
                lemma_classify_text(segments[i]);
            }
        }
        lemma_join_not_empty(texts, '/');
        lemma_split_join(texts, '/');
        assert(parts == texts);
    }
    assert forall|k: int| 0 <= k < parts.len() implies fault_at(parts, k) is None by {
        assert(classify(parts[k]) == Some(segments[k]));
        if name_of(segments[k]) is Some {
            assert forall|j: int| 0 <= j < k implies #[trigger] piece_name(parts[j]) != name_of(
                segments[k],
            ) by {
                assert(classify(parts[j]) == Some(segments[j]));
            }
        }
    }
    lemma_first_fault_none(parts, 0);
    assert(Seq::new(parts.len(), |i: int| classify(parts[i]).unwrap()) == segments);
}

/// The compiled form of a template, written out again, is the template.
pub proof fn lemma_render_compile(template: Seq<char>)
    requires
        spec_compile(template) is Ok,
    ensures
        render(spec_compile(template)->Ok_0) == template,
{
    let parts = pieces(template);
    let segments = spec_compile(template)->Ok_0;
    let texts = segments.map_values(|segment: SegmentModel| segment_text(segment));
    lemma_no_fault(parts, 0);
    assert forall|i: int| 0 <= i < parts.len() implies texts[i] == parts[i] by {
        assert(fault_at(parts, i) is None);
        let piece = parts[i];
        if piece[0] == ':' {
            assert(seq![':'] + piece.skip(1) == piece);
        } else if piece[0] == '*' {
            assert(seq!['*'] + piece.skip(1) == piece);
        }
    }
    assert(texts == parts);
    if template.len() > 0 {
        lemma_join_split(template, '/');
    }
}

} // verus!
