use vstd::prelude::*;

verus! {

/// Clones a string.
pub fn clone_string(s: &String) -> (r: String)
    ensures
        r@ == s@,
{
    s.as_str().to_owned()
}

/// `s` with every non-overlapping occurrence of `from` replaced by `to`,
/// scanning left to right.
pub open spec fn spec_replace(s: Seq<char>, from: Seq<char>, to: Seq<char>) -> Seq<char>
    recommends
        from.len() > 0,
    decreases s.len(),
{
    if from.len() == 0 || s.len() < from.len() {
        s
    } else if s.subrange(0, from.len() as int) == from {
        to + spec_replace(s.skip(from.len() as int), from, to)
    } else {
        seq![s[0]] + spec_replace(s.skip(1), from, to)
    }
}

/// Descriptions come with a stray `rsquo` token where an apostrophe entity
/// was meant; it is normalized to `apos` before it is stored as metadata.
pub open spec fn spec_normalize_description(s: Seq<char>) -> Seq<char> {
    spec_replace(s, "rsquo"@, "apos"@)
}

/// Replaces every occurrence of the token `rsquo` by `apos`.
pub fn normalize_description(s: &str) -> (r: String)
    ensures
        r@ == spec_normalize_description(s@),
{
    proof {
        reveal_strlit("rsquo");
        reveal_strlit("apos");
    }
    let n = s.unicode_len();
    let mut out = String::new();
    let mut i: usize = 0;
    proof {
        assert(s@.skip(0) =~= s@);
    }
    while i < n
        invariant
            i <= n,
            n == s@.len(),
            spec_normalize_description(s@) == out@ + spec_normalize_description(s@.skip(i as int)),
            "rsquo"@.len() == 5,
            "rsquo"@ == seq!['r', 's', 'q', 'u', 'o'],
            "apos"@ == seq!['a', 'p', 'o', 's'],
        decreases n - i,
    {
        let ghost rest = s@.skip(i as int);
        if n - i >= 5 && s.get_char(i) == 'r' && s.get_char(i + 1) == 's' && s.get_char(i + 2)
            == 'q' && s.get_char(i + 3) == 'u' && s.get_char(i + 4) == 'o' {
            proof {
                assert(rest.subrange(0, 5) =~= "rsquo"@);
                assert(rest.skip(5) =~= s@.skip(i + 5));
            }
            out.append("apos");
            i = i + 5;
        } else {
            proof {
                if i + 5 <= n && rest.subrange(0, 5) == "rsquo"@ {
                    assert(s@[i as int] == rest.subrange(0, 5)[0]);
                    assert(s@[i as int + 1] == rest.subrange(0, 5)[1]);
                    assert(s@[i as int + 2] == rest.subrange(0, 5)[2]);
                    assert(s@[i as int + 3] == rest.subrange(0, 5)[3]);
                    assert(s@[i as int + 4] == rest.subrange(0, 5)[4]);
                    assert(false);
                }
                assert(rest.len() >= 5 ==> rest.subrange(0, 5) != "rsquo"@);
                if rest.len() < 5 {
                    assert(spec_normalize_description(rest) == rest);
                }
                assert(seq![rest[0]] =~= s@.subrange(i as int, i + 1));
                assert(rest.skip(1) =~= s@.skip(i + 1));
            }
            let c = s.substring_char(i, i + 1);
            out.append(c);
            i = i + 1;
        }
    }
    proof {
        assert(s@.skip(n as int) =~= Seq::<char>::empty());
        assert(spec_normalize_description(s@.skip(n as int)) =~= Seq::<char>::empty());
        assert(out@ =~= spec_normalize_description(s@));
    }
    out
}

/// What decoding HTML entities leaves of a string; the result depends on
/// the characters alone.
pub uninterp spec fn decoded_entities(s: Seq<char>) -> Seq<char>;

/// Relies on html_escape::decode_html_entities: decodes the HTML entities
/// of the text.
#[verifier::external_body]
pub fn decode_entities(s: &str) -> (r: String)
    ensures
        r@ == decoded_entities(s@),
{
    html_escape::decode_html_entities(s).into_owned()
}

/// `s` with every carriage return dropped.
pub open spec fn spec_strip_cr(s: Seq<char>) -> Seq<char>
    decreases s.len(),
{
    if s.len() == 0 {
        Seq::<char>::empty()
    } else if s[0] == '\r' {
        spec_strip_cr(s.drop_first())
    } else {
        seq![s[0]] + spec_strip_cr(s.drop_first())
    }
}

/// Drops every carriage return.
pub fn strip_cr(s: &str) -> (r: String)
    ensures
        r@ == spec_strip_cr(s@),
{
    let n = s.unicode_len();
    let mut out = String::new();
    let mut i: usize = 0;
    proof {
        assert(s@.skip(0) =~= s@);
    }
    while i < n
        invariant
            i <= n,
            n == s@.len(),
            spec_strip_cr(s@) == out@ + spec_strip_cr(s@.skip(i as int)),
        decreases n - i,
    {
        let ghost rest = s@.skip(i as int);
        proof {
            assert(rest[0] == s@[i as int]);
            assert(rest.drop_first() =~= s@.skip(i + 1));
        }
        let c = s.get_char(i);
        if c != '\r' {
            let piece = s.substring_char(i, i + 1);
            proof {
                assert(piece@ =~= seq![s@[i as int]]);
            }
            out.append(piece);
        }
        i = i + 1;
    }
    proof {
        assert(s@.skip(n as int) =~= Seq::<char>::empty());
        assert(out@ =~= spec_strip_cr(s@));
    }
    out
}

/// The lines of `s`, split at every newline: one more line than there are
/// newlines, and an empty text gives one empty line.
pub open spec fn spec_split_lines(s: Seq<char>) -> Seq<Seq<char>>
    decreases s.len(),
{
    if s.len() == 0 {
        seq![Seq::<char>::empty()]
    } else if s[0] == '\n' {
        seq![Seq::<char>::empty()] + spec_split_lines(s.drop_first())
    } else {
        let rest = spec_split_lines(s.drop_first());
        seq![seq![s[0]] + rest[0]] + rest.drop_first()
    }
}

/// A split never yields an empty list of lines.
pub proof fn lemma_split_lines_nonempty(s: Seq<char>)
    ensures
        spec_split_lines(s).len() >= 1,
    decreases s.len(),
{
    if s.len() > 0 {
        lemma_split_lines_nonempty(s.drop_first());
    }
}

/// Splits at every newline.
pub fn split_lines(s: &str) -> (r: Vec<String>)
    ensures
        r@.map_values(|l: String| l@) == spec_split_lines(s@),
{
    let n = s.unicode_len();
    let mut done: Vec<String> = Vec::new();
    let mut cur = String::new();
    let mut i: usize = 0;
    proof {
        assert(s@.skip(0) =~= s@);
    }
    while i < n
        invariant
            i <= n,
            n == s@.len(),
            spec_split_lines(s@) == done@.map_values(|l: String| l@) + seq![
                cur@ + spec_split_lines(s@.skip(i as int))[0],
            ] + spec_split_lines(s@.skip(i as int)).drop_first(),
        decreases n - i,
    {
        let ghost rest = s@.skip(i as int);
        let ghost split_rest = spec_split_lines(rest);
        proof {
            lemma_split_lines_nonempty(rest.drop_first());
            assert(rest[0] == s@[i as int]);
            assert(rest.drop_first() =~= s@.skip(i + 1));
        }
        let c = s.get_char(i);
        if c == '\n' {
            let finished = cur;
            cur = String::new();
            done.push(finished);
            proof {
                assert(split_rest[0] =~= Seq::<char>::empty());
                assert(split_rest.drop_first() =~= spec_split_lines(s@.skip(i + 1)));
                assert(done@.map_values(|l: String| l@) + seq![
                    cur@ + spec_split_lines(s@.skip(i + 1))[0],
                ] + spec_split_lines(s@.skip(i + 1)).drop_first() =~~= spec_split_lines(s@));
            }
        } else {
            let piece = s.substring_char(i, i + 1);
            proof {
                assert(piece@ =~= seq![s@[i as int]]);
            }
            cur.append(piece);
            proof {
                let next_rest = spec_split_lines(s@.skip(i + 1));
                assert(split_rest[0] =~= seq![s@[i as int]] + next_rest[0]);
                assert(split_rest.drop_first() =~= next_rest.drop_first());
                assert(done@.map_values(|l: String| l@) + seq![cur@ + next_rest[0]]
                    + next_rest.drop_first() =~~= spec_split_lines(s@));
            }
        }
        i = i + 1;
    }
    proof {
        assert(s@.skip(n as int) =~= Seq::<char>::empty());
        assert(spec_split_lines(s@.skip(n as int))[0] =~= Seq::<char>::empty());
    }
    done.push(cur);
    proof {
        assert(done@.map_values(|l: String| l@) =~~= spec_split_lines(s@));
    }
    done
}

/// A line holding one single space is shown as an empty line.
pub open spec fn spec_blank_to_empty(line: Seq<char>) -> Seq<char> {
    if line == " "@ {
        Seq::<char>::empty()
    } else {
        line
    }
}

/// What a volume's description is shown as: entities decoded, carriage
/// returns dropped, split into lines, single-space lines blanked, and
/// consecutive duplicate lines folded into one.
pub open spec fn spec_description_lines(s: Seq<char>) -> Seq<Seq<char>> {
    crate::utils::dedup::spec_dedup(
        spec_split_lines(spec_strip_cr(decoded_entities(s))).map_values(
            |l: Seq<char>| spec_blank_to_empty(l),
        ),
        Seq::<char>::empty(),
    )
}

/// Renders a volume's description for display, line by line.
pub fn description_lines(description: &str) -> (r: Vec<String>)
    ensures
        r@.map_values(|l: String| l@) == spec_description_lines(description@),
{
    let decoded = decode_entities(description);
    let stripped = strip_cr(decoded.as_str());
    let lines = split_lines(stripped.as_str());
    let mut blanked: Vec<String> = Vec::new();
    let ghost line_views = lines@.map_values(|l: String| l@);
    let mut i: usize = 0;
    proof {
        reveal_strlit(" ");
    }
    while i < lines.len()
        invariant
            i <= lines@.len(),
            line_views == lines@.map_values(|l: String| l@),
            blanked@.map_values(|l: String| l@) == line_views.subrange(0, i as int).map_values(
                |l: Seq<char>| spec_blank_to_empty(l),
            ),
            " "@ == seq![' '],
        decreases lines@.len() - i,
    {
        let line = &lines[i];
        let is_blank = line_is_single_space(line);
        let entry = if is_blank {
            String::new()
        } else {
            crate::text::clone_string(line)
        };
        let ghost prev_blanked = blanked@;
        let ghost entry_view = entry@;
        blanked.push(entry);
        proof {
            let f = |l: String| l@;
            let g = |l: Seq<char>| spec_blank_to_empty(l);
            assert(line_views[i as int] == lines@[i as int]@);
            assert(entry_view == g(line_views[i as int]));
            assert(prev_blanked.map_values(f).len() == prev_blanked.len());
            assert(line_views.subrange(0, i as int).map_values(g).len() == i);
            assert(prev_blanked.len() == i);
            assert(blanked@ == prev_blanked.push(entry));
            assert(blanked@.len() == i + 1);
            assert(line_views.subrange(0, i + 1) =~= line_views.subrange(0, i as int).push(
                line_views[i as int],
            ));
            assert forall|j: int| 0 <= j < blanked@.len() implies blanked@.map_values(f)[j]
                == line_views.subrange(0, i + 1).map_values(g)[j] by {
                if j < i {
                    assert(blanked@[j] == prev_blanked[j]);
                    assert(prev_blanked.map_values(f)[j] == line_views.subrange(
                        0,
                        i as int,
                    ).map_values(g)[j]);
                } else {
                    assert(blanked@[j] == entry);
                }
            }
            assert(blanked@.map_values(f) =~~= line_views.subrange(0, i + 1).map_values(g));
        }
        i = i + 1;
    }
    proof {
        assert(line_views.subrange(0, lines@.len() as int) =~= line_views);
    }
    let ghost blanked_views = blanked@.map_values(|l: String| l@);
    proof {
        assert(crate::utils::dedup::spec_dedup(blanked_views, Seq::<char>::empty())
            == spec_description_lines(description@));
    }
    let mut walker = crate::utils::dedup::Dedup::new(blanked);
    let mut out: Vec<String> = Vec::new();
    loop
        invariant
            walker.wf(),
            crate::utils::dedup::spec_dedup(blanked_views, Seq::<char>::empty())
                == spec_description_lines(description@),
            crate::utils::dedup::spec_dedup(blanked_views, Seq::<char>::empty()) == out@.map_values(
                |l: String| l@,
            ) + crate::utils::dedup::spec_dedup(walker.remaining(), walker.prev_line()),
        decreases walker.remaining().len(),
    {
        match walker.next() {
            Some(line) => {
                out.push(line);
                proof {
                    assert(crate::utils::dedup::spec_dedup(
                        blanked_views,
                        Seq::<char>::empty(),
                    ) =~~= out@.map_values(|l: String| l@) + crate::utils::dedup::spec_dedup(
                        walker.remaining(),
                        walker.prev_line(),
                    ));
                }
            },
            None => {
                proof {
                    assert(out@.map_values(|l: String| l@) =~~= crate::utils::dedup::spec_dedup(
                        blanked_views,
                        Seq::<char>::empty(),
                    ));
                }
                return out;
            },
        }
    }
}

/// Whether a line is exactly one space.
fn line_is_single_space(line: &String) -> (r: bool)
    ensures
        r <==> line@ == " "@,
{
    proof {
        reveal_strlit(" ");
    }
    if line.unicode_len() != 1 {
        proof {
            assert(" "@ == seq![' ']);
        }
        return false;
    }
    let c = line.as_str().get_char(0);
    proof {
        assert(" "@ == seq![' ']);
        assert(line@ == " "@ <==> line@ =~= seq![' ']);
    }
    c == ' '
}

} // verus!
