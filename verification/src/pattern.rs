//! Templates such as `"[CQ:at,qq={qq}]{content}"`: literal text with named
//! captures in braces, and the matching of a string against them.

use vstd::prelude::*;
use vstd::string::{StrSliceExecFns, StringExecFns};

use crate::text::{chars_of, find_exec, find_from, lemma_find_from, occurs_at, occurs_at_exec};
use crate::text_map::TextMap;

verus! {

broadcast use vstd::string::group_string_axioms;

/// One segment of a parsed template, as characters.
pub enum Segment {
    /// Text that must appear as it is.
    Lit(Seq<char>),
    /// A named capture.
    Cap(Seq<char>),
}

/// The segments that a template parses to, from index `pos` of the template on.
///
/// Text up to the next `{` is a literal; `{name}` up to the first `}` after the
/// brace is a capture; a `{` with no `}` after it is the literal `{`.
pub open spec fn parse_from(t: Seq<char>, pos: nat) -> Seq<Segment>
    decreases t.len() - pos,
{
    if pos >= t.len() {
        seq![]
    } else {
        match find_from(t, seq!['{'], pos) {
            None => seq![Segment::Lit(t.subrange(pos as int, t.len() as int))],
            Some(start) => {
                proof {
                    lemma_find_from(t, seq!['{'], pos);
                }
                let head = if start > pos {
                    seq![Segment::Lit(t.subrange(pos as int, start as int))]
                } else {
                    seq![]
                };
                match find_from(t, seq!['}'], start + 1) {
                    Some(end) => {
                        proof {
                            lemma_find_from(t, seq!['}'], start + 1);
                        }
                        head + seq![Segment::Cap(t.subrange(start + 1int, end as int))] + parse_from(
                            t,
                            end + 1,
                        )
                    },
                    None => head + seq![Segment::Lit(seq!['{'])] + parse_from(t, start + 1),
                }
            },
        }
    }
}

/// The segments that a whole template parses to.
pub open spec fn parse_template(t: Seq<char>) -> Seq<Segment> {
    parse_from(t, 0)
}

/// The first literal among the segments from index `i` on, if any.
pub open spec fn next_literal(segs: Seq<Segment>, i: int) -> Option<Seq<char>>
    decreases segs.len() - i,
{
    if i < 0 || i >= segs.len() {
        None
    } else {
        match segs[i] {
            Segment::Lit(l) => Some(l),
            Segment::Cap(_) => next_literal(segs, i + 1),
        }
    }
}

/// Matches `s` from index `pos` on against the segments from index `i` on.
///
/// A literal must come next in the text. A capture takes the text up to the
/// first occurrence of the next literal of the template, or the rest of the
/// text when no literal follows. The match succeeds when the segments and
/// the text run out together; its result is the list of (name, captured text)
/// in the order of the captures.
pub open spec fn match_from(segs: Seq<Segment>, i: int, s: Seq<char>, pos: nat) -> Option<
    Seq<(Seq<char>, Seq<char>)>,
>
    decreases segs.len() - i,
{
    if i < 0 || i >= segs.len() {
        if pos == s.len() {
            Some(seq![])
        } else {
            None
        }
    } else {
        match segs[i] {
            Segment::Lit(l) => {
                if occurs_at(s, l, pos as int) {
                    match_from(segs, i + 1, s, pos + l.len())
                } else {
                    None
                }
            },
            Segment::Cap(name) => {
                let end = match next_literal(segs, i + 1) {
                    Some(l) => find_from(s, l, pos),
                    None => Some(s.len()),
                };
                match end {
                    None => None,
                    Some(e) => match match_from(segs, i + 1, s, e) {
                        Some(rest) => Some(seq![(name, s.subrange(pos as int, e as int))] + rest),
                        None => None,
                    },
                }
            },
        }
    }
}

/// The result of matching the whole of `s` against the segments.
pub open spec fn match_segments(segs: Seq<Segment>, s: Seq<char>) -> Option<
    Seq<(Seq<char>, Seq<char>)>,
> {
    match_from(segs, 0, s, 0)
}

/// The map of captures that a list of (name, value) builds: a later capture
/// of a name replaces an earlier one.
pub open spec fn captures_map(pairs: Seq<(Seq<char>, Seq<char>)>) -> Map<Seq<char>, Seq<char>>
    decreases pairs.len(),
{
    if pairs.len() == 0 {
        Map::empty()
    } else {
        captures_map(pairs.drop_last()).insert(pairs.last().0, pairs.last().1)
    }
}

/// The captures that a successful match yields, by name.
pub type Captures = TextMap<String>;

/// One part of a template.
#[derive(Debug, Clone)]
enum PatternPart {
    Literal(String),
    Capture(String),
}

impl View for PatternPart {
    type V = Segment;

    closed spec fn view(&self) -> Segment {
        match self {
            PatternPart::Literal(s) => Segment::Lit(s@),
            PatternPart::Capture(s) => Segment::Cap(s@),
        }
    }
}

/// A parsed template.
#[derive(Debug, Clone)]
pub struct Pattern {
    parts: Vec<PatternPart>,
}

impl View for Pattern {
    type V = Seq<Segment>;

    closed spec fn view(&self) -> Seq<Segment> {
        self.parts@.map_values(|p: PatternPart| p@)
    }
}

} // verus!

verus! {

/// Puts the captures found so far in front of the outcome of the rest of a match.
pub open spec fn prepend_captures(
    pairs: Seq<(Seq<char>, Seq<char>)>,
    rest: Option<Seq<(Seq<char>, Seq<char>)>>,
) -> Option<Seq<(Seq<char>, Seq<char>)>> {
    match rest {
        Some(r) => Some(pairs + r),
        None => None,
    }
}

impl Pattern {
    /// Parses a template: text outside braces is literal, `{name}` is a capture
    /// called `name`, and a `{` that no `}` follows is kept as literal text.
    pub fn new(template: &str) -> (p: Self)
        ensures
            p@ == parse_template(template@),
    {
        let t = chars_of(template);
        let open: Vec<char> = vec!['{'];
        let close: Vec<char> = vec!['}'];
        let mut parts: Vec<PatternPart> = Vec::new();
        let mut pos: usize = 0;
        while pos < t.len()
            invariant
                t@ == template@,
                open@ == seq!['{'],
                close@ == seq!['}'],
                pos <= t@.len(),
                parts@.map_values(|p: PatternPart| p@) + parse_from(t@, pos as nat) == parse_from(
                    t@,
                    0,
                ),
            decreases t@.len() - pos,
        {
            let ghost before = parts@.map_values(|p: PatternPart| p@);
            match find_exec(&t, &open, pos) {
                None => {
                    let lit = template.substring_char(pos, t.len()).to_owned();
                    parts.push(PatternPart::Literal(lit));
                    assert(parts@.map_values(|p: PatternPart| p@) =~= before.push(
                        Segment::Lit(t@.subrange(pos as int, t@.len() as int)),
                    ));
                    assert(parse_from(t@, t@.len() as nat) =~= Seq::<Segment>::empty());
                    pos = t.len();
                },
                Some(start) => {
                    proof {
                        lemma_find_from(t@, open@, pos as nat);
                    }
                    let ghost head = if start > pos {
                        seq![Segment::Lit(t@.subrange(pos as int, start as int))]
                    } else {
                        Seq::<Segment>::empty()
                    };
                    if start > pos {
                        let lit = template.substring_char(pos, start).to_owned();
                        parts.push(PatternPart::Literal(lit));
                    }
                    assert(parts@.map_values(|p: PatternPart| p@) =~= before + head);
                    let ghost mid = parts@.map_values(|p: PatternPart| p@);
                    match find_exec(&t, &close, start + 1) {
                        Some(end) => {
                            proof {
                                lemma_find_from(t@, close@, (start + 1) as nat);
                            }
                            let name = template.substring_char(start + 1, end).to_owned();
                            parts.push(PatternPart::Capture(name));
                            assert(parts@.map_values(|p: PatternPart| p@) =~= mid.push(
                                Segment::Cap(t@.subrange(start + 1, end as int)),
                            ));
                            assert(before + parse_from(t@, pos as nat) =~= parts@.map_values(
                                |p: PatternPart| p@,
                            ) + parse_from(t@, (end + 1) as nat));
                            pos = end + 1;
                        },
                        None => {
                            proof {
                                reveal_strlit("{");
                            }
                            let brace = String::from_str("{");
                            assert(brace@ =~= seq!['{']);
                            parts.push(PatternPart::Literal(brace));
                            assert(parts@.map_values(|p: PatternPart| p@) =~= mid.push(
                                Segment::Lit(seq!['{']),
                            ));
                            assert(before + parse_from(t@, pos as nat) =~= parts@.map_values(
                                |p: PatternPart| p@,
                            ) + parse_from(t@, (start + 1) as nat));
                            pos = start + 1;
                        },
                    }
                },
            }
        }
        assert(parse_from(t@, pos as nat) =~= Seq::<Segment>::empty());
        assert(parts@.map_values(|p: PatternPart| p@) =~= parse_from(t@, 0));
        Pattern { parts }
    }
}


impl Pattern {
    /// The first literal after the part at index `current`, if any.
    fn next_literal_after(&self, current: usize) -> (r: Option<&str>)
        ensures
            match r {
                Some(l) => next_literal(self@, current + 1) == Some(l@),
                None => next_literal(self@, current + 1) is None,
            },
    {
        if current >= self.parts.len() {
            return None;
        }
        let mut j: usize = current + 1;
        while j < self.parts.len()
            invariant
                current < j <= self.parts@.len(),
                self@ == self.parts@.map_values(|p: PatternPart| p@),
                next_literal(self@, current + 1) == next_literal(self@, j as int),
            decreases self.parts@.len() - j,
        {
            if let PatternPart::Literal(lit) = &self.parts[j] {
                return Some(lit.as_str());
            }
            j = j + 1;
        }
        None
    }

    /// Matches `s` against the template and returns the captures by name.
    ///
    /// Literals must appear in order; a capture takes the text up to the first
    /// occurrence of the next literal of the template (the rest of the text
    /// when none follows); the whole of `s` must be used. A name captured twice
    /// keeps the later value.
    pub fn match_str(&self, s: &str) -> (r: Option<Captures>)
        ensures
            match r {
                Some(c) => match_segments(self@, s@) matches Some(pairs) && c@ == captures_map(
                    pairs,
                ),
                None => match_segments(self@, s@) is None,
            },
    {
        let sc = chars_of(s);
        let mut captures: Captures = TextMap::new();
        let ghost mut pairs: Seq<(Seq<char>, Seq<char>)> = Seq::empty();
        let mut pos: usize = 0;
        let mut i: usize = 0;
        assert(pairs + Seq::<(Seq<char>, Seq<char>)>::empty() =~= pairs);
        while i < self.parts.len()
            invariant
                sc@ == s@,
                pos <= sc@.len(),
                i <= self.parts@.len(),
                self@ == self.parts@.map_values(|p: PatternPart| p@),
                match_segments(self@, s@) == prepend_captures(
                    pairs,
                    match_from(self@, i as int, s@, pos as nat),
                ),
                captures@ == captures_map(pairs),
            decreases self.parts@.len() - i,
        {
            match &self.parts[i] {
                PatternPart::Literal(lit) => {
                    let lc = chars_of(lit.as_str());
                    if !occurs_at_exec(&sc, &lc, pos) {
                        return None;
                    }
                    assert(pos + lc.len() <= sc.len());
                    pos = pos + lc.len();
                },
                PatternPart::Capture(name) => {
                    let end: usize = match self.next_literal_after(i) {
                        Some(l) => {
                            let lc = chars_of(l);
                            proof {
                                lemma_find_from(sc@, lc@, pos as nat);
                            }
                            match find_exec(&sc, &lc, pos) {
                                Some(e) => e,
                                None => {
                                    return None;
                                },
                            }
                        },
                        None => sc.len(),
                    };
                    let captured = s.substring_char(pos, end).to_owned();
                    let ghost pair = (name@, s@.subrange(pos as int, end as int));
                    let ghost old_pairs = pairs;
                    captures.insert(name.clone(), captured);
                    proof {
                        pairs = pairs.push(pair);
                        assert(pairs.drop_last() =~= old_pairs);
                        match match_from(self@, i + 1, s@, end as nat) {
                            Some(rest) => {
                                assert(old_pairs + (seq![pair] + rest) =~= pairs + rest);
                            },
                            None => {},
                        }
                    }
                    pos = end;
                },
            }
            i = i + 1;
        }
        if pos == sc.len() {
            assert(pairs + Seq::<(Seq<char>, Seq<char>)>::empty() =~= pairs);
            Some(captures)
        } else {
            None
        }
    }
}

} // verus!

verus! {

/// The template text that a segment stands for: a literal as it is, a
/// capture as its name in braces.
pub open spec fn segment_text(seg: Segment) -> Seq<char> {
    match seg {
        Segment::Lit(l) => l,
        Segment::Cap(name) => seq!['{'] + name + seq!['}'],
    }
}

/// The template text that a list of segments stands for.
pub open spec fn render(segs: Seq<Segment>) -> Seq<char>
    decreases segs.len(),
{
    if segs.len() == 0 {
        seq![]
    } else {
        segment_text(segs[0]) + render(segs.drop_first())
    }
}

/// The names of the captures among the segments, in order.
pub open spec fn capture_names(segs: Seq<Segment>) -> Seq<Seq<char>>
    decreases segs.len(),
{
    if segs.len() == 0 {
        seq![]
    } else {
        match segs[0] {
            Segment::Lit(_) => capture_names(segs.drop_first()),
            Segment::Cap(name) => seq![name] + capture_names(segs.drop_first()),
        }
    }
}

/// The text the segments stand for once each capture, in order, is replaced
/// by the value of the corresponding (name, value) pair.
pub open spec fn fill(segs: Seq<Segment>, pairs: Seq<(Seq<char>, Seq<char>)>) -> Seq<char>
    decreases segs.len(),
{
    if segs.len() == 0 {
        seq![]
    } else {
        match segs[0] {
            Segment::Lit(l) => l + fill(segs.drop_first(), pairs),
            Segment::Cap(_) => pairs[0].1 + fill(segs.drop_first(), pairs.drop_first()),
        }
    }
}

/// The names of a list of (name, value) pairs, in order.
pub open spec fn pair_names(pairs: Seq<(Seq<char>, Seq<char>)>) -> Seq<Seq<char>> {
    pairs.map_values(|p: (Seq<char>, Seq<char>)| p.0)
}

proof fn lemma_render_concat(a: Seq<Segment>, b: Seq<Segment>)
    ensures
        render(a + b) == render(a) + render(b),
    decreases a.len(),
{
    if a.len() == 0 {
        assert(a + b =~= b);
        assert(render(a) + render(b) =~= render(b));
    } else {
        assert((a + b).drop_first() =~= a.drop_first() + b);
        lemma_render_concat(a.drop_first(), b);
        assert(segment_text(a[0]) + (render(a.drop_first()) + render(b)) =~= segment_text(a[0])
            + render(a.drop_first()) + render(b));
    }
}

proof fn lemma_render_single(seg: Segment)
    ensures
        render(seq![seg]) == segment_text(seg),
{
    assert(seq![seg].drop_first() =~= Seq::<Segment>::empty());
    assert(seq![seg][0] == seg);
    assert(render(Seq::<Segment>::empty()) == Seq::<char>::empty());
    assert(segment_text(seg) + Seq::<char>::empty() =~= segment_text(seg));
}

proof fn lemma_render_parse_from(t: Seq<char>, pos: nat)
    requires
        pos <= t.len(),
    ensures
        render(parse_from(t, pos)) == t.subrange(pos as int, t.len() as int),
    decreases t.len() - pos,
{
    if pos >= t.len() {
        assert(t.subrange(pos as int, t.len() as int) =~= Seq::<char>::empty());
    } else {
        lemma_find_from(t, seq!['{'], pos);
        match find_from(t, seq!['{'], pos) {
            None => {
                lemma_render_single(Segment::Lit(t.subrange(pos as int, t.len() as int)));
            },
            Some(start) => {
                let head = if start > pos {
                    seq![Segment::Lit(t.subrange(pos as int, start as int))]
                } else {
                    seq![]
                };
                assert(render(head) == t.subrange(pos as int, start as int)) by {
                    if start > pos {
                        lemma_render_single(Segment::Lit(t.subrange(pos as int, start as int)));
                    } else {
                        assert(t.subrange(pos as int, start as int) =~= Seq::<char>::empty());
                    }
                }
                assert(t.subrange(start as int, start + 1int) =~= seq!['{']);
                lemma_find_from(t, seq!['}'], start + 1);
                match find_from(t, seq!['}'], start + 1) {
                    Some(end) => {
                        let seg = Segment::Cap(t.subrange(start + 1int, end as int));
                        lemma_render_parse_from(t, end + 1);
                        lemma_render_single(seg);
                        lemma_render_concat(head, seq![seg]);
                        lemma_render_concat(head + seq![seg], parse_from(t, end + 1));
                        assert(t.subrange(end as int, end + 1int) =~= seq!['}']);
                        assert(t.subrange(pos as int, t.len() as int) =~= t.subrange(
                            pos as int,
                            start as int,
                        ) + (seq!['{'] + t.subrange(start + 1int, end as int) + seq!['}'])
                            + t.subrange(end + 1int, t.len() as int));
                    },
                    None => {
                        let seg = Segment::Lit(seq!['{']);
                        lemma_render_parse_from(t, start + 1);
                        lemma_render_single(seg);
                        lemma_render_concat(head, seq![seg]);
                        lemma_render_concat(head + seq![seg], parse_from(t, start + 1));
                        assert(t.subrange(pos as int, t.len() as int) =~= t.subrange(
                            pos as int,
                            start as int,
                        ) + seq!['{'] + t.subrange(start + 1int, t.len() as int));
                    },
                }
            },
        }
    }
}

/// Writing the parsed segments of a template back out, captures as their
/// names in braces, gives the template again.
pub proof fn law_parse_render_roundtrip(t: Seq<char>)
    ensures
        render(parse_template(t)) == t,
{
    lemma_render_parse_from(t, 0);
    assert(t.subrange(0, t.len() as int) =~= t);
}

} // verus!

verus! {

proof fn lemma_suffix_step(segs: Seq<Segment>, i: int)
    requires
        0 <= i < segs.len(),
    ensures
        segs.subrange(i, segs.len() as int)[0] == segs[i],
        segs.subrange(i, segs.len() as int).drop_first() =~= segs.subrange(
            i + 1,
            segs.len() as int,
        ),
        segs.subrange(i, segs.len() as int).len() > 0,
{
}

proof fn lemma_match_from_sound(
    segs: Seq<Segment>,
    i: int,
    s: Seq<char>,
    pos: nat,
    r: Seq<(Seq<char>, Seq<char>)>,
)
    requires
        0 <= i <= segs.len(),
        pos <= s.len(),
        match_from(segs, i, s, pos) == Some(r),
    ensures
        s.subrange(pos as int, s.len() as int) == fill(segs.subrange(i, segs.len() as int), r),
        pair_names(r) == capture_names(segs.subrange(i, segs.len() as int)),
    decreases segs.len() - i,
{
    let tail = segs.subrange(i, segs.len() as int);
    if i == segs.len() {
        assert(tail =~= Seq::<Segment>::empty());
        assert(s.subrange(pos as int, s.len() as int) =~= Seq::<char>::empty());
        assert(pair_names(r) =~= Seq::<Seq<char>>::empty());
    } else {
        lemma_suffix_step(segs, i);
        match segs[i] {
            Segment::Lit(l) => {
                lemma_match_from_sound(segs, i + 1, s, pos + l.len(), r);
                assert(s.subrange(pos as int, s.len() as int) =~= s.subrange(
                    pos as int,
                    pos + l.len() as int,
                ) + s.subrange(pos + l.len() as int, s.len() as int));
            },
            Segment::Cap(name) => {
                let end = match next_literal(segs, i + 1) {
                    Some(l) => find_from(s, l, pos),
                    None => Some(s.len()),
                };
                match next_literal(segs, i + 1) {
                    Some(l) => {
                        lemma_find_from(s, l, pos);
                    },
                    None => {},
                }
                let e = end->0;
                let rest = match_from(segs, i + 1, s, e)->0;
                lemma_match_from_sound(segs, i + 1, s, e, rest);
                assert(r.drop_first() =~= rest);
                assert(s.subrange(pos as int, s.len() as int) =~= s.subrange(pos as int, e as int)
                    + s.subrange(e as int, s.len() as int));
                assert(pair_names(r) =~= seq![name] + pair_names(rest));
            },
        }
    }
}

/// A successful match is exact: the text is the template with each capture
/// replaced, in order, by its captured value, and the captures come in the
/// order, and with the names, of the template's captures.
pub proof fn law_match_sound(segs: Seq<Segment>, s: Seq<char>, pairs: Seq<(Seq<char>, Seq<char>)>)
    requires
        match_segments(segs, s) == Some(pairs),
    ensures
        s == fill(segs, pairs),
        pair_names(pairs) == capture_names(segs),
{
    lemma_match_from_sound(segs, 0, s, 0, pairs);
    assert(segs.subrange(0, segs.len() as int) =~= segs);
    assert(s.subrange(0, s.len() as int) =~= s);
}

proof fn lemma_match_from_literal_only(segs: Seq<Segment>, i: int, s: Seq<char>, pos: nat)
    requires
        0 <= i <= segs.len(),
        pos <= s.len(),
        capture_names(segs.subrange(i, segs.len() as int)).len() == 0,
    ensures
        match_from(segs, i, s, pos) is Some <==> s.subrange(pos as int, s.len() as int) == render(
            segs.subrange(i, segs.len() as int),
        ),
        match_from(segs, i, s, pos) is Some ==> match_from(segs, i, s, pos) == Some(
            Seq::<(Seq<char>, Seq<char>)>::empty(),
        ),
    decreases segs.len() - i,
{
    let tail = segs.subrange(i, segs.len() as int);
    if i == segs.len() {
        assert(tail =~= Seq::<Segment>::empty());
        assert(render(tail) == Seq::<char>::empty());
        if pos < s.len() {
            assert(s.subrange(pos as int, s.len() as int).len() > 0);
        } else {
            assert(s.subrange(pos as int, s.len() as int) =~= Seq::<char>::empty());
        }
    } else {
        lemma_suffix_step(segs, i);
        let next = segs.subrange(i + 1, segs.len() as int);
        match segs[i] {
            Segment::Lit(l) => {
                assert(capture_names(next).len() == 0);
                assert(render(tail) == l + render(next));
                let rest_text = s.subrange(pos as int, s.len() as int);
                let big_r = render(next);
                if occurs_at(s, l, pos as int) {
                    lemma_match_from_literal_only(segs, i + 1, s, pos + l.len());
                    assert(rest_text =~= s.subrange(pos as int, pos + l.len() as int) + s.subrange(
                        pos + l.len() as int,
                        s.len() as int,
                    ));
                    if rest_text == l + big_r {
                        assert(s.subrange(pos + l.len() as int, s.len() as int) =~= rest_text.subrange(
                            l.len() as int,
                            rest_text.len() as int,
                        ));
                        assert((l + big_r).subrange(l.len() as int, (l + big_r).len() as int)
                            =~= big_r);
                    }
                } else {
                    if rest_text == l + big_r {
                        assert(s.subrange(pos as int, pos + l.len() as int) =~= rest_text.subrange(
                            0,
                            l.len() as int,
                        ));
                        assert((l + big_r).subrange(0, l.len() as int) =~= l);
                        assert(occurs_at(s, l, pos as int));
                    }
                }
            },
            Segment::Cap(name) => {
                assert(capture_names(tail).len() > 0);
            },
        }
    }
}

/// A template without captures matches exactly its own literal text, and
/// then captures nothing.
pub proof fn law_match_literal_only(segs: Seq<Segment>, s: Seq<char>)
    requires
        capture_names(segs).len() == 0,
    ensures
        match_segments(segs, s) is Some <==> s == render(segs),
        match_segments(segs, s) is Some ==> match_segments(segs, s) == Some(
            Seq::<(Seq<char>, Seq<char>)>::empty(),
        ),
{
    assert(segs.subrange(0, segs.len() as int) =~= segs);
    assert(s.subrange(0, s.len() as int) =~= s);
    lemma_match_from_literal_only(segs, 0, s, 0);
}

/// No `}` comes after the first `{` of the template (in particular, the
/// template holds no `{`).
pub open spec fn no_closing_brace_after_opening(t: Seq<char>) -> bool {
    forall|i: int, j: int| 0 <= i < j < t.len() && t[i] == '{' ==> t[j] != '}'
}

/// All the segments are literals.
pub open spec fn all_literals(segs: Seq<Segment>) -> bool {
    forall|k: int| 0 <= k < segs.len() ==> (#[trigger] segs[k]) is Lit
}

proof fn lemma_all_literals_no_names(segs: Seq<Segment>)
    requires
        all_literals(segs),
    ensures
        capture_names(segs).len() == 0,
    decreases segs.len(),
{
    if segs.len() > 0 {
        assert(segs[0] is Lit);
        assert(all_literals(segs.drop_first())) by {
            assert forall|k: int| 0 <= k < segs.drop_first().len() implies (
            #[trigger] segs.drop_first()[k]) is Lit by {
                assert(segs.drop_first()[k] == segs[k + 1]);
            }
        }
        lemma_all_literals_no_names(segs.drop_first());
    }
}

proof fn lemma_parse_from_all_literals(t: Seq<char>, pos: nat)
    requires
        no_closing_brace_after_opening(t),
    ensures
        all_literals(parse_from(t, pos)),
    decreases t.len() - pos,
{
    if pos < t.len() {
        lemma_find_from(t, seq!['{'], pos);
        match find_from(t, seq!['{'], pos) {
            None => {},
            Some(start) => {
                assert(t.subrange(start as int, start + 1int)[0] == t[start as int]);
                lemma_find_from(t, seq!['}'], start + 1);
                if find_from(t, seq!['}'], start + 1) is Some {
                    let end = find_from(t, seq!['}'], start + 1)->0;
                    assert(t.subrange(end as int, end + 1int)[0] == t[end as int]);
                    assert(false);
                }
                let head = if start > pos {
                    seq![Segment::Lit(t.subrange(pos as int, start as int))]
                } else {
                    seq![]
                };
                lemma_parse_from_all_literals(t, start + 1);
                let rest = parse_from(t, start + 1);
                let all = head + seq![Segment::Lit(seq!['{'])] + rest;
                assert forall|k: int| 0 <= k < all.len() implies (#[trigger] all[k]) is Lit by {
                    if k >= head.len() + 1 {
                        assert(all[k] == rest[k - head.len() - 1]);
                    }
                }
            },
        }
    }
}

/// A template in which no `}` follows its first `{` (a template without any
/// `{`, or one whose braces are never closed) is all literal text: it matches
/// exactly the strings equal to it, and captures nothing.
pub proof fn law_plain_template(t: Seq<char>, s: Seq<char>)
    requires
        no_closing_brace_after_opening(t),
    ensures
        match_segments(parse_template(t), s) is Some <==> s == t,
        match_segments(parse_template(t), s) is Some ==> match_segments(parse_template(t), s)
            == Some(Seq::<(Seq<char>, Seq<char>)>::empty()),
        match_segments(parse_template(t), s) is Some ==> captures_map(
            match_segments(parse_template(t), s)->0,
        ) == Map::<Seq<char>, Seq<char>>::empty(),
{
    let segs = parse_template(t);
    lemma_parse_from_all_literals(t, 0);
    lemma_all_literals_no_names(segs);
    law_parse_render_roundtrip(t);
    law_match_literal_only(segs, s);
}

/// Every literal among the segments has at least one character.
pub open spec fn literals_nonempty(segs: Seq<Segment>) -> bool {
    forall|k: int| 0 <= k < segs.len() ==> (#[trigger] segs[k] matches Segment::Lit(l) ==> l.len() > 0)
}

/// For each capture among the segments, in order, the literal that follows
/// it in the template (captures in between skipped), if any.
pub open spec fn capture_follows(segs: Seq<Segment>) -> Seq<Option<Seq<char>>>
    decreases segs.len(),
{
    if segs.len() == 0 {
        seq![]
    } else {
        match segs[0] {
            Segment::Lit(_) => capture_follows(segs.drop_first()),
            Segment::Cap(_) => seq![next_literal(segs, 1)] + capture_follows(segs.drop_first()),
        }
    }
}

/// `v` is a suffix of `s`.
pub open spec fn ends_with(s: Seq<char>, v: Seq<char>) -> bool {
    v.len() <= s.len() && s.subrange(s.len() - v.len(), s.len() as int) == v
}

/// Where the value of a capture ends in the text `s`: it holds no occurrence
/// of the literal that follows the capture, or, when none follows, it runs
/// to the end of `s`.
pub open spec fn capture_ends_right(follow: Option<Seq<char>>, value: Seq<char>, s: Seq<char>) -> bool {
    match follow {
        Some(l) => forall|j: int| !#[trigger] occurs_at(value, l, j),
        None => ends_with(s, value),
    }
}

/// No name occurs twice.
pub open spec fn distinct_names(ns: Seq<Seq<char>>) -> bool {
    forall|i: int, j: int| 0 <= i < j < ns.len() ==> ns[i] != ns[j]
}

proof fn lemma_parse_from_literals_nonempty(t: Seq<char>, pos: nat)
    ensures
        literals_nonempty(parse_from(t, pos)),
    decreases t.len() - pos,
{
    if pos < t.len() {
        lemma_find_from(t, seq!['{'], pos);
        match find_from(t, seq!['{'], pos) {
            None => {},
            Some(start) => {
                let head = if start > pos {
                    seq![Segment::Lit(t.subrange(pos as int, start as int))]
                } else {
                    seq![]
                };
                lemma_find_from(t, seq!['}'], start + 1);
                match find_from(t, seq!['}'], start + 1) {
                    Some(end) => {
                        lemma_parse_from_literals_nonempty(t, end + 1);
                        let rest = parse_from(t, end + 1);
                        let all = head + seq![Segment::Cap(t.subrange(start + 1int, end as int))]
                            + rest;
                        assert forall|k: int| 0 <= k < all.len() implies (#[trigger] all[k] matches Segment::Lit(
                            l,
                        ) ==> l.len() > 0) by {
                            if k >= head.len() + 1 {
                                assert(all[k] == rest[k - head.len() - 1]);
                            }
                        }
                    },
                    None => {
                        lemma_parse_from_literals_nonempty(t, start + 1);
                        let rest = parse_from(t, start + 1);
                        let all = head + seq![Segment::Lit(seq!['{'])] + rest;
                        assert forall|k: int| 0 <= k < all.len() implies (#[trigger] all[k] matches Segment::Lit(
                            l,
                        ) ==> l.len() > 0) by {
                            if k >= head.len() + 1 {
                                assert(all[k] == rest[k - head.len() - 1]);
                            }
                        }
                    },
                }
            },
        }
    }
}

proof fn lemma_next_literal_suffix(segs: Seq<Segment>, i: int, k: int)
    requires
        0 <= i <= segs.len(),
        0 <= k,
    ensures
        next_literal(segs.subrange(i, segs.len() as int), k) == next_literal(segs, i + k),
    decreases segs.len() - i - k,
{
    let tail = segs.subrange(i, segs.len() as int);
    if i + k < segs.len() {
        assert(tail[k] == segs[i + k]);
        lemma_next_literal_suffix(segs, i, k + 1);
    }
}

proof fn lemma_match_from_stops(
    segs: Seq<Segment>,
    i: int,
    s: Seq<char>,
    pos: nat,
    r: Seq<(Seq<char>, Seq<char>)>,
)
    requires
        0 <= i <= segs.len(),
        pos <= s.len(),
        literals_nonempty(segs),
        match_from(segs, i, s, pos) == Some(r),
    ensures
        r.len() == capture_follows(segs.subrange(i, segs.len() as int)).len(),
        forall|j: int|
            0 <= j < r.len() ==> capture_ends_right(
                #[trigger] capture_follows(segs.subrange(i, segs.len() as int))[j],
                r[j].1,
                s,
            ),
    decreases segs.len() - i,
{
    let tail = segs.subrange(i, segs.len() as int);
    if i < segs.len() {
        lemma_suffix_step(segs, i);
        match segs[i] {
            Segment::Lit(l) => {
                lemma_match_from_stops(segs, i + 1, s, pos + l.len(), r);
            },
            Segment::Cap(name) => {
                lemma_next_literal_suffix(segs, i, 1);
                let end = match next_literal(segs, i + 1) {
                    Some(l) => find_from(s, l, pos),
                    None => Some(s.len()),
                };
                let e = end->0;
                let v = s.subrange(pos as int, e as int);
                match next_literal(segs, i + 1) {
                    Some(l) => {
                        lemma_find_from(s, l, pos);
                        lemma_next_literal_is_literal(segs, i + 1);
                        assert forall|j: int| !#[trigger] occurs_at(v, l, j) by {
                            if occurs_at(v, l, j) {
                                assert(s.subrange(pos + j, pos + j + l.len()) =~= v.subrange(
                                    j,
                                    j + l.len(),
                                ));
                                assert(occurs_at(s, l, pos + j));
                            }
                        }
                    },
                    None => {
                        assert(s.subrange(s.len() - v.len(), s.len() as int) =~= v);
                    },
                }
                let rest = match_from(segs, i + 1, s, e)->0;
                lemma_match_from_stops(segs, i + 1, s, e, rest);
                assert(r.drop_first() =~= rest);
                let fol = capture_follows(tail);
                let fol_rest = capture_follows(segs.subrange(i + 1, segs.len() as int));
                assert(fol =~= seq![next_literal(segs, i + 1)] + fol_rest);
                assert(r[0].1 == v);
                assert forall|j: int| 0 <= j < r.len() implies capture_ends_right(
                    #[trigger] fol[j],
                    r[j].1,
                    s,
                ) by {
                    if j > 0 {
                        assert(fol[j] == fol_rest[j - 1]);
                        assert(r[j] == rest[j - 1]);
                    }
                }
            },
        }
    } else {
        assert(tail =~= Seq::<Segment>::empty());
        assert(capture_follows(tail) =~= Seq::<Option<Seq<char>>>::empty());
    }
}

proof fn lemma_next_literal_is_literal(segs: Seq<Segment>, i: int)
    requires
        literals_nonempty(segs),
    ensures
        next_literal(segs, i) matches Some(l) ==> l.len() > 0,
    decreases segs.len() - i,
{
    if 0 <= i < segs.len() {
        lemma_next_literal_is_literal(segs, i + 1);
        assert(segs[i] matches Segment::Lit(l) ==> l.len() > 0);
    }
}

/// In a match against a parsed template, each capture, in order, ends right:
/// it stops before the first occurrence of the literal that follows it (its
/// value never holds that literal), and a capture that no literal follows
/// runs to the end of the text.
pub proof fn law_capture_values(t: Seq<char>, s: Seq<char>, pairs: Seq<(Seq<char>, Seq<char>)>)
    requires
        match_segments(parse_template(t), s) == Some(pairs),
    ensures
        pairs.len() == capture_follows(parse_template(t)).len(),
        forall|j: int|
            0 <= j < pairs.len() ==> capture_ends_right(
                #[trigger] capture_follows(parse_template(t))[j],
                pairs[j].1,
                s,
            ),
{
    let segs = parse_template(t);
    lemma_parse_from_literals_nonempty(t, 0);
    assert(segs.subrange(0, segs.len() as int) =~= segs);
    lemma_match_from_stops(segs, 0, s, 0, pairs);
}

/// In the map of captures, a name maps to the value of its last capture.
pub proof fn law_captures_map_last(pairs: Seq<(Seq<char>, Seq<char>)>, k: Seq<char>, i: int)
    requires
        0 <= i < pairs.len(),
        pairs[i].0 == k,
        forall|j: int| i < j < pairs.len() ==> (#[trigger] pairs[j]).0 != k,
    ensures
        captures_map(pairs).contains_key(k),
        captures_map(pairs)[k] == pairs[i].1,
    decreases pairs.len(),
{
    if i < pairs.len() - 1 {
        let init = pairs.drop_last();
        assert(pairs[pairs.len() - 1].0 != k);
        assert forall|j: int| i < j < init.len() implies (#[trigger] init[j]).0 != k by {
            assert(init[j] == pairs[j]);
        }
        law_captures_map_last(init, k, i);
    }
}

/// A name that no capture has is absent from the map of captures.
pub proof fn law_captures_map_absent(pairs: Seq<(Seq<char>, Seq<char>)>, k: Seq<char>)
    requires
        forall|j: int| 0 <= j < pairs.len() ==> (#[trigger] pairs[j]).0 != k,
    ensures
        !captures_map(pairs).contains_key(k),
    decreases pairs.len(),
{
    if pairs.len() > 0 {
        let init = pairs.drop_last();
        assert(pairs[pairs.len() - 1].0 != k);
        assert forall|j: int| 0 <= j < init.len() implies (#[trigger] init[j]).0 != k by {
            assert(init[j] == pairs[j]);
        }
        law_captures_map_absent(init, k);
    }
}

/// When a template's capture names are distinct, the captures that a match
/// returns hold, under each name, the value of that capture, and that value
/// ends right: before the first occurrence of the literal that follows the
/// capture, or at the end of the text when no literal follows.
pub proof fn law_captures_by_name(t: Seq<char>, s: Seq<char>, pairs: Seq<(Seq<char>, Seq<char>)>)
    requires
        match_segments(parse_template(t), s) == Some(pairs),
        distinct_names(capture_names(parse_template(t))),
    ensures
        capture_names(parse_template(t)).len() == pairs.len(),
        forall|j: int|
            0 <= j < pairs.len() ==> {
                let k = #[trigger] capture_names(parse_template(t))[j];
                &&& captures_map(pairs).contains_key(k)
                &&& captures_map(pairs)[k] == pairs[j].1
                &&& capture_ends_right(capture_follows(parse_template(t))[j], captures_map(pairs)[k], s)
            },
{
    let segs = parse_template(t);
    let names = capture_names(segs);
    law_match_sound(segs, s, pairs);
    law_capture_values(t, s, pairs);
    assert(pair_names(pairs).len() == pairs.len());
    assert forall|j: int| 0 <= j < pairs.len() implies {
        let k = #[trigger] capture_names(parse_template(t))[j];
        &&& captures_map(pairs).contains_key(k)
        &&& captures_map(pairs)[k] == pairs[j].1
        &&& capture_ends_right(capture_follows(parse_template(t))[j], captures_map(pairs)[k], s)
    } by {
        let k = names[j];
        assert(pairs[j].0 == pair_names(pairs)[j]);
        assert forall|m: int| j < m < pairs.len() implies (#[trigger] pairs[m]).0 != k by {
            assert(pairs[m].0 == pair_names(pairs)[m]);
        }
        law_captures_map_last(pairs, k, j);
    }
}

/// The literal a capture stops at is the nearest one after it: from index
/// `i` on, `next_literal` gives `l` exactly when some segment `j >= i` is the
/// literal `l` and every segment between `i` and `j` is a capture, and gives
/// nothing exactly when every segment from `i` on is a capture.
pub proof fn law_next_literal_is_nearest(segs: Seq<Segment>, i: int, l: Seq<char>)
    requires
        0 <= i,
    ensures
        next_literal(segs, i) == Some(l) <==> exists|j: int|
            i <= j < segs.len() && segs[j] == Segment::Lit(l) && forall|k: int|
                i <= k < j ==> (#[trigger] segs[k]) is Cap,
        next_literal(segs, i) is None <==> forall|k: int| i <= k < segs.len() ==> (#[trigger] segs[k]) is Cap,
    decreases segs.len() - i,
{
    if i < segs.len() {
        law_next_literal_is_nearest(segs, i + 1, l);
        match segs[i] {
            Segment::Lit(x) => {
                if x == l {
                    assert(forall|k: int| i <= k < i ==> (#[trigger] segs[k]) is Cap);
                } else {
                    if exists|j: int|
                        i <= j < segs.len() && segs[j] == Segment::Lit(l) && forall|k: int|
                            i <= k < j ==> (#[trigger] segs[k]) is Cap {
                        let j = choose|j: int|
                            i <= j < segs.len() && segs[j] == Segment::Lit(l) && forall|k: int|
                                i <= k < j ==> (#[trigger] segs[k]) is Cap;
                        if j > i {
                            assert(segs[i] is Cap);
                        }
                    }
                }
            },
            Segment::Cap(_) => {
                if next_literal(segs, i + 1) == Some(l) {
                    let j = choose|j: int|
                        i + 1 <= j < segs.len() && segs[j] == Segment::Lit(l) && forall|k: int|
                            i + 1 <= k < j ==> (#[trigger] segs[k]) is Cap;
                    assert forall|k: int| i <= k < j implies (#[trigger] segs[k]) is Cap by {
                        if k > i {
                            assert(segs[k] is Cap);
                        }
                    }
                }
                if exists|j: int|
                    i <= j < segs.len() && segs[j] == Segment::Lit(l) && forall|k: int|
                        i <= k < j ==> (#[trigger] segs[k]) is Cap {
                    let j = choose|j: int|
                        i <= j < segs.len() && segs[j] == Segment::Lit(l) && forall|k: int|
                            i <= k < j ==> (#[trigger] segs[k]) is Cap;
                    assert(j != i);
                    assert forall|k: int| i + 1 <= k < j implies (#[trigger] segs[k]) is Cap by {
                        assert(segs[k] is Cap);
                    }
                }
                if forall|k: int| i + 1 <= k < segs.len() ==> (#[trigger] segs[k]) is Cap {
                    assert forall|k: int| i <= k < segs.len() implies (#[trigger] segs[k]) is Cap by {
                        if k > i {
                            assert(segs[k] is Cap);
                        }
                    }
                }
            },
        }
    }
}

/// The captures before the first literal of the segments all have empty
/// values (one pair per capture, in order).
pub open spec fn leading_captures_empty(
    segs: Seq<Segment>,
    pairs: Seq<(Seq<char>, Seq<char>)>,
) -> bool
    decreases segs.len(),
{
    if segs.len() == 0 {
        true
    } else {
        match segs[0] {
            Segment::Lit(_) => true,
            Segment::Cap(_) => pairs.len() > 0 && pairs[0].1.len() == 0 && leading_captures_empty(
                segs.drop_first(),
                pairs.drop_first(),
            ),
        }
    }
}

/// Values that filling the template with them can be matched back: a
/// capture's value does not hold the literal that follows the capture, not
/// even partly overlapping that literal where it is placed after the value;
/// and the captures that come right after a capture, before any literal,
/// are empty.
pub open spec fn values_fit(segs: Seq<Segment>, pairs: Seq<(Seq<char>, Seq<char>)>) -> bool
    decreases segs.len(),
{
    if segs.len() == 0 {
        true
    } else {
        match segs[0] {
            Segment::Lit(_) => values_fit(segs.drop_first(), pairs),
            Segment::Cap(_) => {
                &&& match next_literal(segs, 1) {
                    Some(l) => forall|k: int|
                        0 <= k < pairs[0].1.len() ==> !#[trigger] occurs_at(pairs[0].1 + l, l, k),
                    None => true,
                }
                &&& leading_captures_empty(segs.drop_first(), pairs.drop_first())
                &&& values_fit(segs.drop_first(), pairs.drop_first())
            },
        }
    }
}

proof fn lemma_find_from_exact(s: Seq<char>, p: Seq<char>, k: nat, m: nat)
    requires
        k <= m,
        occurs_at(s, p, m as int),
        forall|j: int| k <= j < m ==> !#[trigger] occurs_at(s, p, j),
    ensures
        find_from(s, p, k) == Some(m),
{
    lemma_find_from(s, p, k);
    match find_from(s, p, k) {
        Some(m2) => {
            if m2 > m {
                assert(!occurs_at(s, p, m as int));
            }
        },
        None => {
            assert(!occurs_at(s, p, m as int));
        },
    }
}

proof fn lemma_next_literal_shift(segs: Seq<Segment>, k: int)
    requires
        segs.len() > 0,
        0 <= k,
    ensures
        next_literal(segs, k + 1) == next_literal(segs.drop_first(), k),
    decreases segs.len() - k,
{
    if k + 1 < segs.len() {
        assert(segs.drop_first()[k] == segs[k + 1]);
        lemma_next_literal_shift(segs, k + 1);
    }
}

proof fn lemma_names_drop_cap(segs: Seq<Segment>, pairs: Seq<(Seq<char>, Seq<char>)>)
    requires
        segs.len() > 0,
        segs[0] is Cap,
        pair_names(pairs) == capture_names(segs),
    ensures
        pairs.len() > 0,
        pairs[0].0 == segs[0]->Cap_0,
        pair_names(pairs.drop_first()) == capture_names(segs.drop_first()),
{
    assert(capture_names(segs).len() > 0);
    assert(pair_names(pairs).len() == pairs.len());
    assert(pair_names(pairs)[0] == pairs[0].0);
    assert(pair_names(pairs.drop_first()) =~= pair_names(pairs).drop_first());
    assert(capture_names(segs) =~= seq![segs[0]->Cap_0] + capture_names(segs.drop_first()));
}

proof fn lemma_leading_literal_prefix(
    segs: Seq<Segment>,
    pairs: Seq<(Seq<char>, Seq<char>)>,
)
    requires
        leading_captures_empty(segs, pairs),
        pair_names(pairs) == capture_names(segs),
    ensures
        next_literal(segs, 0) matches Some(l) ==> fill(segs, pairs).len() >= l.len()
            && fill(segs, pairs).subrange(0, l.len() as int) == l,
        next_literal(segs, 0) is None ==> fill(segs, pairs).len() == 0,
    decreases segs.len(),
{
    if segs.len() > 0 {
        match segs[0] {
            Segment::Lit(x) => {
                assert(fill(segs, pairs).subrange(0, x.len() as int) =~= x);
            },
            Segment::Cap(_) => {
                lemma_names_drop_cap(segs, pairs);
                lemma_next_literal_shift(segs, 0);
                lemma_leading_literal_prefix(segs.drop_first(), pairs.drop_first());
                assert(fill(segs, pairs) =~= fill(segs.drop_first(), pairs.drop_first()));
            },
        }
    }
}

proof fn lemma_match_from_complete(
    segs: Seq<Segment>,
    i: int,
    s: Seq<char>,
    pos: nat,
    pairs: Seq<(Seq<char>, Seq<char>)>,
)
    requires
        0 <= i <= segs.len(),
        pos <= s.len(),
        s.subrange(pos as int, s.len() as int) == fill(segs.subrange(i, segs.len() as int), pairs),
        pair_names(pairs) == capture_names(segs.subrange(i, segs.len() as int)),
        values_fit(segs.subrange(i, segs.len() as int), pairs),
    ensures
        match_from(segs, i, s, pos) == Some(pairs),
    decreases segs.len() - i,
{
    let tail = segs.subrange(i, segs.len() as int);
    if i == segs.len() {
        assert(tail =~= Seq::<Segment>::empty());
        assert(s.subrange(pos as int, s.len() as int).len() == 0);
        assert(pair_names(pairs).len() == pairs.len());
        assert(pairs =~= Seq::<(Seq<char>, Seq<char>)>::empty());
    } else {
        lemma_suffix_step(segs, i);
        let next = segs.subrange(i + 1, segs.len() as int);
        let rest_text = s.subrange(pos as int, s.len() as int);
        match segs[i] {
            Segment::Lit(l) => {
                assert(fill(tail, pairs) == l + fill(next, pairs));
                assert(s.subrange(pos as int, pos + l.len() as int) =~= rest_text.subrange(
                    0,
                    l.len() as int,
                ));
                assert(rest_text.subrange(0, l.len() as int) =~= l);
                assert(s.subrange(pos + l.len() as int, s.len() as int) =~= rest_text.subrange(
                    l.len() as int,
                    rest_text.len() as int,
                ));
                assert(rest_text.subrange(l.len() as int, rest_text.len() as int) =~= fill(
                    next,
                    pairs,
                ));
                assert(capture_names(tail) == capture_names(next));
                lemma_match_from_complete(segs, i + 1, s, pos + l.len(), pairs);
            },
            Segment::Cap(name) => {
                lemma_names_drop_cap(tail, pairs);
                let v = pairs[0].1;
                let rest = pairs.drop_first();
                assert(fill(tail, pairs) == v + fill(next, rest));
                lemma_next_literal_suffix(segs, i, 1);
                lemma_next_literal_shift(tail, 0);
                lemma_leading_literal_prefix(next, rest);
                let e = pos + v.len();
                assert(s.subrange(pos as int, e as int) =~= rest_text.subrange(0, v.len() as int));
                assert(rest_text.subrange(0, v.len() as int) =~= v);
                assert(s.subrange(e as int, s.len() as int) =~= rest_text.subrange(
                    v.len() as int,
                    rest_text.len() as int,
                ));
                assert(rest_text.subrange(v.len() as int, rest_text.len() as int) =~= fill(
                    next,
                    rest,
                ));
                match next_literal(segs, i + 1) {
                    Some(l) => {
                        assert(s.subrange(e as int, e + l.len() as int) =~= fill(next, rest).subrange(
                            0,
                            l.len() as int,
                        ));
                        assert(occurs_at(s, l, e as int));
                        assert(s.subrange(pos as int, e + l.len() as int) =~= v + l);
                        assert forall|j: int| pos <= j < e implies !#[trigger] occurs_at(s, l, j) by {
                            if occurs_at(s, l, j) {
                                assert((v + l).subrange(j - pos, j - pos + l.len()) =~= s.subrange(
                                    j,
                                    j + l.len(),
                                ));
                                assert(occurs_at(v + l, l, j - pos));
                            }
                        }
                        lemma_find_from_exact(s, l, pos, e);
                    },
                    None => {
                        assert(e == s.len());
                    },
                }
                lemma_match_from_complete(segs, i + 1, s, e, rest);
                assert(pairs =~= seq![(name, s.subrange(pos as int, e as int))] + rest);
            },
        }
    }
}

/// Matching is complete: filling a template's captures with values that fit
/// (see `values_fit`) gives a text that always matches, and the match gives
/// back exactly those values, in order, under their names.
pub proof fn law_match_complete(segs: Seq<Segment>, pairs: Seq<(Seq<char>, Seq<char>)>)
    requires
        pair_names(pairs) == capture_names(segs),
        values_fit(segs, pairs),
    ensures
        match_segments(segs, fill(segs, pairs)) == Some(pairs),
{
    let s = fill(segs, pairs);
    assert(segs.subrange(0, segs.len() as int) =~= segs);
    assert(s.subrange(0, s.len() as int) =~= s);
    lemma_match_from_complete(segs, 0, s, 0, pairs);
}

/// How one segment may stand in a split template, given the template text
/// that follows it: a literal is non-empty, and is either a lone `{` with no
/// `}` anywhere after it, or holds no `{` at all; a capture's name holds no `}`.
pub open spec fn segment_ok(seg: Segment, after: Seq<char>) -> bool {
    match seg {
        Segment::Lit(l) => l.len() > 0 && if l == seq!['{'] {
            !after.contains('}')
        } else {
            !l.contains('{')
        },
        Segment::Cap(n) => !n.contains('}'),
    }
}

/// A split of a template into segments that keeps literal text whole: every
/// segment stands right, and no two literals are next to each other unless
/// one of them is a lone `{`.
pub open spec fn split_ok(segs: Seq<Segment>) -> bool
    decreases segs.len(),
{
    if segs.len() == 0 {
        true
    } else {
        &&& segment_ok(segs[0], render(segs.drop_first()))
        &&& (segs.len() > 1 && segs[0] is Lit && segs[1] is Lit) ==> (segs[0] == Segment::Lit(
            seq!['{'],
        ) || segs[1] == Segment::Lit(seq!['{']))
        &&& split_ok(segs.drop_first())
    }
}

proof fn lemma_find_char_some(t: Seq<char>, c: char, k: nat)
    requires
        find_from(t, seq![c], k) is Some,
    ensures
        ({
            let m = find_from(t, seq![c], k)->0;
            &&& k <= m < t.len()
            &&& t[m as int] == c
            &&& forall|j: int| k <= j < m ==> t[j] != c
        }),
{
    lemma_find_from(t, seq![c], k);
    let m = find_from(t, seq![c], k)->0;
    assert(t.subrange(m as int, m + 1int)[0] == t[m as int]);
    assert forall|j: int| k <= j < m implies t[j] != c by {
        if t[j] == c {
            assert(t.subrange(j, j + 1) =~= seq![c]);
            assert(occurs_at(t, seq![c], j));
        }
    }
}

proof fn lemma_find_char_none(t: Seq<char>, c: char, k: nat)
    requires
        find_from(t, seq![c], k) is None,
    ensures
        forall|j: int| k <= j < t.len() ==> t[j] != c,
{
    lemma_find_from(t, seq![c], k);
    assert forall|j: int| k <= j < t.len() implies t[j] != c by {
        if t[j] == c {
            assert(t.subrange(j, j + 1) =~= seq![c]);
            assert(occurs_at(t, seq![c], j));
        }
    }
}

proof fn lemma_find_char_at(t: Seq<char>, c: char, k: nat, m: nat)
    requires
        k <= m < t.len(),
        t[m as int] == c,
        forall|j: int| k <= j < m ==> t[j] != c,
    ensures
        find_from(t, seq![c], k) == Some(m),
{
    assert(t.subrange(m as int, m + 1int) =~= seq![c]);
    assert forall|j: int| k <= j < m implies !#[trigger] occurs_at(t, seq![c], j) by {
        if occurs_at(t, seq![c], j) {
            assert(t.subrange(j, j + 1)[0] == t[j]);
        }
    }
    lemma_find_from_exact(t, seq![c], k, m);
}

proof fn lemma_find_char_absent(t: Seq<char>, c: char, k: nat)
    requires
        forall|j: int| k <= j < t.len() ==> t[j] != c,
    ensures
        find_from(t, seq![c], k) is None,
{
    if find_from(t, seq![c], k) is Some {
        lemma_find_char_some(t, c, k);
    }
}

proof fn lemma_split_ok_cons(a: Segment, b: Seq<Segment>)
    ensures
        split_ok(seq![a] + b) == ({
            &&& segment_ok(a, render(b))
            &&& (b.len() > 0 && a is Lit && b[0] is Lit) ==> (a == Segment::Lit(seq!['{']) || b[0]
                == Segment::Lit(seq!['{']))
            &&& split_ok(b)
        }),
        render(seq![a] + b) == segment_text(a) + render(b),
{
    let ab = seq![a] + b;
    assert(ab.drop_first() =~= b);
    assert(ab[0] == a);
    if b.len() > 0 {
        assert(ab[1] == b[0]);
    }
}

proof fn lemma_parse_from_split_ok(t: Seq<char>, pos: nat)
    ensures
        split_ok(parse_from(t, pos)),
    decreases t.len() - pos,
{
    if pos < t.len() {
        match find_from(t, seq!['{'], pos) {
            None => {
                lemma_find_char_none(t, '{', pos);
                let l = t.subrange(pos as int, t.len() as int);
                lemma_split_ok_cons(Segment::Lit(l), seq![]);
                assert(seq![Segment::Lit(l)] + Seq::<Segment>::empty() =~= seq![Segment::Lit(l)]);
                assert(l[0] == t[pos as int]);
                assert(!l.contains('{')) by {
                    if l.contains('{') {
                        let i = choose|i: int| 0 <= i < l.len() && l[i] == '{';
                        assert(l[i] == t[pos + i]);
                    }
                }
                assert(l != seq!['{']) by {
                    if l == seq!['{'] {
                        assert(l[0] == '{');
                    }
                }
            },
            Some(start) => {
                lemma_find_char_some(t, '{', pos);
                match find_from(t, seq!['}'], start + 1) {
                    Some(end) => {
                        lemma_find_char_some(t, '}', start + 1);
                        lemma_parse_from_split_ok(t, end + 1);
                        let n = t.subrange(start + 1int, end as int);
                        let x = Segment::Cap(n);
                        let rest = parse_from(t, end + 1);
                        assert(!n.contains('}')) by {
                            if n.contains('}') {
                                let i = choose|i: int| 0 <= i < n.len() && n[i] == '}';
                                assert(n[i] == t[start + 1 + i]);
                            }
                        }
                        lemma_split_ok_cons(x, rest);
                        lemma_parse_from_head(t, pos, start, seq![x] + rest);
                        let head = if start > pos {
                            seq![Segment::Lit(t.subrange(pos as int, start as int))]
                        } else {
                            seq![]
                        };
                        assert(head + seq![x] + rest =~= head + (seq![x] + rest));
                        assert(parse_from(t, pos) == head + seq![x] + rest);
                    },
                    None => {
                        lemma_find_char_none(t, '}', start + 1);
                        lemma_parse_from_split_ok(t, start + 1);
                        let x = Segment::Lit(seq!['{']);
                        let rest = parse_from(t, start + 1);
                        lemma_render_parse_from(t, start + 1);
                        assert(!render(rest).contains('}')) by {
                            if render(rest).contains('}') {
                                let i = choose|i: int| 0 <= i < render(rest).len() && render(rest)[i] == '}';
                                assert(render(rest)[i] == t[start + 1 + i]);
                            }
                        }
                        lemma_split_ok_cons(x, rest);
                        lemma_parse_from_head(t, pos, start, seq![x] + rest);
                        let head = if start > pos {
                            seq![Segment::Lit(t.subrange(pos as int, start as int))]
                        } else {
                            seq![]
                        };
                        assert(head + seq![x] + rest =~= head + (seq![x] + rest));
                        assert(parse_from(t, pos) == head + seq![x] + rest);
                    },
                }
            },
        }
    }
}

/// The head literal, when there is one, keeps the split right.
proof fn lemma_parse_from_head(t: Seq<char>, pos: nat, start: nat, tail: Seq<Segment>)
    requires
        pos <= start < t.len(),
        t[start as int] == '{',
        forall|j: int| pos <= j < start ==> t[j] != '{',
        split_ok(tail),
        tail.len() > 0,
        tail[0] is Cap || tail[0] == Segment::Lit(seq!['{']),
    ensures
        split_ok(
            (if start > pos {
                seq![Segment::Lit(t.subrange(pos as int, start as int))]
            } else {
                seq![]
            }) + tail,
        ),
{
    if start > pos {
        let l = t.subrange(pos as int, start as int);
        lemma_split_ok_cons(Segment::Lit(l), tail);
        assert(!l.contains('{')) by {
            if l.contains('{') {
                let i = choose|i: int| 0 <= i < l.len() && l[i] == '{';
                assert(l[i] == t[pos + i]);
            }
        }
        assert(l != seq!['{']) by {
            if l == seq!['{'] {
                assert(l[0] == t[pos as int]);
            }
        }
    } else {
        assert(Seq::<Segment>::empty() + tail =~= tail);
    }
}

proof fn lemma_parse_from_brace(t: Seq<char>, m: nat)
    requires
        m < t.len(),
        t[m as int] == '{',
    ensures
        find_from(t, seq!['{'], m) == Some(m),
{
    lemma_find_char_at(t, '{', m, m);
}

proof fn lemma_parse_from_skip_head(t: Seq<char>, pos: nat, m: nat)
    requires
        pos < m < t.len(),
        t[m as int] == '{',
        forall|j: int| pos <= j < m ==> t[j] != '{',
    ensures
        parse_from(t, pos) == seq![Segment::Lit(t.subrange(pos as int, m as int))] + parse_from(t, m),
{
    lemma_find_char_at(t, '{', pos, m);
    lemma_parse_from_brace(t, m);
    let head = seq![Segment::Lit(t.subrange(pos as int, m as int))];
    match find_from(t, seq!['}'], m + 1) {
        Some(end) => {
            lemma_find_char_some(t, '}', m + 1);
            let x = Segment::Cap(t.subrange(m + 1int, end as int));
            assert(parse_from(t, m) =~= Seq::<Segment>::empty() + seq![x] + parse_from(t, end + 1));
            assert(head + seq![x] + parse_from(t, end + 1) =~= head + (Seq::<Segment>::empty()
                + seq![x] + parse_from(t, end + 1)));
        },
        None => {
            let x = Segment::Lit(seq!['{']);
            assert(parse_from(t, m) =~= Seq::<Segment>::empty() + seq![x] + parse_from(t, m + 1));
            assert(head + seq![x] + parse_from(t, m + 1) =~= head + (Seq::<Segment>::empty()
                + seq![x] + parse_from(t, m + 1)));
        },
    }
}

proof fn lemma_split_unique(t: Seq<char>, pos: nat, segs: Seq<Segment>)
    requires
        pos <= t.len(),
        render(segs) == t.subrange(pos as int, t.len() as int),
        split_ok(segs),
    ensures
        segs == parse_from(t, pos),
    decreases segs.len(),
{
    let suffix = t.subrange(pos as int, t.len() as int);
    if segs.len() == 0 {
        assert(render(segs) == Seq::<char>::empty());
        assert(suffix.len() == 0);
        assert(segs =~= Seq::<Segment>::empty());
    } else {
        let a = segs[0];
        let b = segs.drop_first();
        assert(segs =~= seq![a] + b);
        lemma_split_ok_cons(a, b);
        let r = render(b);
        assert(suffix == segment_text(a) + r);
        match a {
            Segment::Cap(n) => {
                let end = pos + 1 + n.len();
                assert(segment_text(a) =~= seq!['{'] + n + seq!['}']);
                assert(suffix.len() == n.len() + 2 + r.len());
                assert(t[pos as int] == suffix[0]);
                assert(t[end as int] == suffix[n.len() + 1int]);
                assert forall|j: int| pos + 1 <= j < end implies t[j] != '}' by {
                    assert(t[j] == suffix[j - pos]);
                    assert(suffix[j - pos] == n[j - pos - 1]);
                }
                lemma_parse_from_brace(t, pos);
                lemma_find_char_at(t, '}', pos + 1, end);
                assert(t.subrange(pos + 1int, end as int) =~= n) by {
                    assert forall|j: int| 0 <= j < n.len() implies t.subrange(pos + 1int, end as int)[j]
                        == n[j] by {
                        assert(t[pos + 1 + j] == suffix[1 + j]);
                    }
                }
                assert(r =~= t.subrange(end + 1int, t.len() as int)) by {
                    assert forall|j: int| 0 <= j < r.len() implies r[j] == t.subrange(
                        end + 1int,
                        t.len() as int,
                    )[j] by {
                        assert(suffix[n.len() + 2 + j] == r[j]);
                        assert(t[end + 1 + j] == suffix[n.len() + 2 + j]);
                    }
                }
                lemma_split_unique(t, end + 1, b);
                assert(parse_from(t, pos) =~= Seq::<Segment>::empty() + seq![a] + parse_from(
                    t,
                    end + 1,
                ));
            },
            Segment::Lit(l) => {
                if l == seq!['{'] {
                    assert(segment_text(a) == seq!['{']);
                    assert(suffix.len() == 1 + r.len());
                    assert(suffix[0] == '{');
                    assert(t[pos as int] == suffix[0]);
                    assert(r =~= t.subrange(pos + 1int, t.len() as int)) by {
                        assert forall|j: int| 0 <= j < r.len() implies r[j] == t.subrange(
                            pos + 1int,
                            t.len() as int,
                        )[j] by {
                            assert(suffix[1 + j] == r[j]);
                        }
                    }
                    assert forall|j: int| pos + 1 <= j < t.len() implies t[j] != '}' by {
                        assert(t[j] == r[j - pos - 1]);
                    }
                    lemma_parse_from_brace(t, pos);
                    lemma_find_char_absent(t, '}', pos + 1);
                    lemma_split_unique(t, pos + 1, b);
                    assert(parse_from(t, pos) =~= Seq::<Segment>::empty() + seq![a] + parse_from(
                        t,
                        pos + 1,
                    ));
                } else {
                    let m = pos + l.len();
                    assert(segment_text(a) == l);
                    assert(suffix.len() == l.len() + r.len());
                    assert(suffix == l + r);
                    assert(m <= t.len());
                    assert forall|j: int| pos <= j < m implies t[j] != '{' by {
                        assert(t[j] == suffix[j - pos]);
                        assert(suffix[j - pos] == l[j - pos]);
                        assert(l.contains('{') ==> false);
                        if l[j - pos] == '{' {
                            assert(l.contains('{'));
                        }
                    }
                    assert(r =~= t.subrange(m as int, t.len() as int)) by {
                        assert forall|j: int| 0 <= j < r.len() implies r[j] == t.subrange(
                            m as int,
                            t.len() as int,
                        )[j] by {
                            assert(suffix[l.len() + j] == r[j]);
                        }
                    }
                    assert(l =~= t.subrange(pos as int, m as int)) by {
                        assert forall|j: int| 0 <= j < l.len() implies l[j] == t.subrange(
                            pos as int,
                            m as int,
                        )[j] by {
                            assert(suffix[j] == l[j]);
                        }
                    }
                    if b.len() == 0 {
                        assert(r.len() == 0);
                        assert(m == t.len());
                        lemma_find_char_absent(t, '{', pos);
                        assert(b =~= Seq::<Segment>::empty());
                        assert(segs =~= seq![a]);
                    } else {
                        let b0 = b[0];
                        let c = b.drop_first();
                        assert(b =~= seq![b0] + c);
                        lemma_split_ok_cons(b0, c);
                        assert(r == segment_text(b0) + render(c));
                        assert(b0 is Cap || b0 == Segment::Lit(seq!['{']));
                        assert(segment_text(b0)[0] == '{') by {
                            if b0 is Cap {
                                assert(segment_text(b0) =~= seq!['{'] + b0->Cap_0 + seq!['}']);
                            }
                        }
                        assert(r[0] == '{');
                        assert(t[m as int] == r[0]);
                        lemma_parse_from_skip_head(t, pos, m);
                        lemma_split_unique(t, m, b);
                    }
                }
            },
        }
    }
}

/// Parsing keeps literal text whole, and is the only split that does: the
/// segments of a parsed template give the template back (`render`), and
/// keep literals whole (`split_ok`: each literal holds no `{` unless it is a
/// lone `{` that no `}` follows, each capture name holds no `}`, and no two
/// literals are next to each other unless one is such a lone `{`); and any
/// segments that give the template back and keep literals whole are the
/// parsed ones.
pub proof fn law_parse_is_the_whole_split(t: Seq<char>, segs: Seq<Segment>)
    ensures
        render(parse_template(t)) == t,
        split_ok(parse_template(t)),
        render(segs) == t && split_ok(segs) ==> segs == parse_template(t),
{
    law_parse_render_roundtrip(t);
    lemma_parse_from_split_ok(t, 0);
    if render(segs) == t && split_ok(segs) {
        assert(t.subrange(0, t.len() as int) =~= t);
        lemma_split_unique(t, 0, segs);
    }
}

} // verus!
