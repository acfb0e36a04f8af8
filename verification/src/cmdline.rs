use vstd::prelude::*;
use vstd::string::StrSliceExecFns;
use vstd::string::StringExecFns;

verus! {

/// The characters that separate tokens inside one pipeline segment.
pub open spec fn is_shell_space(c: char) -> bool {
    c == ' ' || c == '\t' || c == '\n' || c == '\r'
}

fn is_space_char(c: char) -> (r: bool)
    ensures
        r == is_shell_space(c),
{
    c == ' ' || c == '\t' || c == '\n' || c == '\r'
}

/// Helper for `ws_tokens`: walks `s` with `cur` holding the token started so
/// far and `acc` the tokens already finished.
pub open spec fn ws_tokens_from(s: Seq<char>, cur: Seq<char>, acc: Seq<Seq<char>>) -> Seq<
    Seq<char>,
>
    decreases s.len(),
{
    if s.len() == 0 {
        if cur.len() == 0 {
            acc
        } else {
            acc.push(cur)
        }
    } else if is_shell_space(s[0]) {
        if cur.len() == 0 {
            ws_tokens_from(s.drop_first(), cur, acc)
        } else {
            ws_tokens_from(s.drop_first(), Seq::empty(), acc.push(cur))
        }
    } else {
        ws_tokens_from(s.drop_first(), cur.push(s[0]), acc)
    }
}

/// The whitespace-separated tokens of `s`, in order.
pub open spec fn ws_tokens(s: Seq<char>) -> Seq<Seq<char>> {
    ws_tokens_from(s, Seq::empty(), Seq::empty())
}

/// Tokens already finished stand in front of whatever the rest of the walk
/// yields.
proof fn lemma_ws_tokens_from_acc(s: Seq<char>, cur: Seq<char>, acc: Seq<Seq<char>>)
    ensures
        ws_tokens_from(s, cur, acc) == acc + ws_tokens_from(s, cur, Seq::empty()),
    decreases s.len(),
{
    let e: Seq<Seq<char>> = Seq::empty();
    if s.len() == 0 {
        if cur.len() == 0 {
            assert(acc + e =~= acc);
        } else {
            assert(acc + e.push(cur) =~= acc.push(cur));
        }
    } else if is_shell_space(s[0]) {
        if cur.len() == 0 {
            lemma_ws_tokens_from_acc(s.drop_first(), cur, acc);
        } else {
            lemma_ws_tokens_from_acc(s.drop_first(), Seq::empty(), acc.push(cur));
            lemma_ws_tokens_from_acc(s.drop_first(), Seq::empty(), e.push(cur));
            let w = ws_tokens_from(s.drop_first(), Seq::empty(), e);
            assert(acc.push(cur) + w =~= acc + (e.push(cur) + w));
        }
    } else {
        lemma_ws_tokens_from_acc(s.drop_first(), cur.push(s[0]), acc);
    }
}

/// Consuming a run of non-space characters extends the current token by that
/// run.
proof fn lemma_ws_tokens_run(s: Seq<char>, cur: Seq<char>, acc: Seq<Seq<char>>, k: int)
    requires
        0 <= k <= s.len(),
        forall|j: int| 0 <= j < k ==> !is_shell_space(s[j]),
    ensures
        ws_tokens_from(s, cur, acc) == ws_tokens_from(s.skip(k), cur + s.take(k), acc),
    decreases k,
{
    if k == 0 {
        assert(s.skip(0) =~= s);
        assert(cur + s.take(0) =~= cur);
    } else {
        lemma_ws_tokens_run(s.drop_first(), cur.push(s[0]), acc, k - 1);
        assert(s.drop_first().skip(k - 1) =~= s.skip(k));
        assert(cur.push(s[0]) + s.drop_first().take(k - 1) =~= cur + s.take(k));
    }
}

/// At a token boundary (end of input or a space), the finished token steps to
/// the front of the remaining tokens.
proof fn lemma_ws_tokens_flush(s: Seq<char>, cur: Seq<char>)
    requires
        cur.len() > 0,
        s.len() == 0 || is_shell_space(s[0]),
    ensures
        ws_tokens_from(s, cur, Seq::empty()) == seq![cur] + ws_tokens_from(
            s,
            Seq::empty(),
            Seq::empty(),
        ),
{
    let e: Seq<Seq<char>> = Seq::empty();
    if s.len() == 0 {
        assert(e.push(cur) =~= seq![cur] + e);
    } else {
        lemma_ws_tokens_from_acc(s.drop_first(), Seq::empty(), e.push(cur));
        let w = ws_tokens_from(s.drop_first(), Seq::empty(), e);
        assert(e.push(cur) + w =~= seq![cur] + w);
    }
}

/// Splits `line` into its whitespace-separated tokens, left to right.
fn split_tokens(line: &str) -> (tokens: Vec<String>)
    ensures
        tokens.deep_view() == ws_tokens(line@),
{
    let n = line.unicode_len();
    let mut tokens: Vec<String> = Vec::new();
    let mut i: usize = 0;
    proof {
        assert(line@.skip(0) =~= line@);
        assert(tokens.deep_view() =~= Seq::<Seq<char>>::empty());
        assert(Seq::<Seq<char>>::empty() + ws_tokens(line@) =~= ws_tokens(line@));
    }
    while i < n
        invariant
            n == line@.len(),
            i <= n,
            ws_tokens(line@) == tokens.deep_view() + ws_tokens_from(
                line@.skip(i as int),
                Seq::empty(),
                Seq::empty(),
            ),
        decreases n - i,
    {
        let c = line.get_char(i);
        if is_space_char(c) {
            proof {
                assert(line@.skip(i as int).drop_first() =~= line@.skip(i as int + 1));
            }
            i = i + 1;
        } else {
            let start = i;
            i = i + 1;
            while i < n && !is_space_char(line.get_char(i))
                invariant
                    n == line@.len(),
                    start < i <= n,
                    forall|j: int| start <= j < i ==> !is_shell_space(line@[j]),
                decreases n - i,
            {
                i = i + 1;
            }
            let tok = String::from_str(line.substring_char(start, i));
            proof {
                let rest = line@.skip(start as int);
                lemma_ws_tokens_run(rest, Seq::empty(), Seq::empty(), i - start);
                assert(rest.skip(i - start) =~= line@.skip(i as int));
                assert(Seq::<char>::empty() + rest.take(i - start) =~= tok@);
                lemma_ws_tokens_flush(line@.skip(i as int), tok@);
                let old_views = tokens.deep_view();
                assert((old_views + (seq![tok@] + ws_tokens_from(
                    line@.skip(i as int),
                    Seq::empty(),
                    Seq::empty(),
                ))) =~= (old_views.push(tok@) + ws_tokens_from(
                    line@.skip(i as int),
                    Seq::empty(),
                    Seq::empty(),
                )));
            }
            let ghost old_tokens = tokens;
            tokens.push(tok);
            proof {
                assert(tokens.deep_view() =~= old_tokens.deep_view().push(tok@));
            }
        }
    }
    proof {
        assert(line@.skip(n as int) =~= Seq::<char>::empty());
        assert(tokens.deep_view() + Seq::<Seq<char>>::empty() =~= tokens.deep_view());
    }
    tokens
}

/// Splits one pipeline segment into its command token and argument tokens;
/// yields nothing when the segment holds no token at all.
pub fn parse_command(line: &str) -> (r: Option<(String, Vec<String>)>)
    ensures
        ws_tokens(line@).len() == 0 <==> r is None,
        r matches Some((cmd, args)) ==> cmd@ == ws_tokens(line@)[0] && args.deep_view()
            == ws_tokens(line@).drop_first(),
{
    let mut tokens = split_tokens(line);
    if tokens.len() == 0 {
        None
    } else {
        let ghost all = tokens.deep_view();
        let cmd = tokens.remove(0);
        proof {
            assert(tokens.deep_view() =~= all.drop_first());
        }
        Some((cmd, tokens))
    }
}

/// Helper for `pipe_segments`: walks `s` with `cur` holding the segment
/// started so far and `acc` the segments already finished.  Unlike token
/// splitting, every pipe character ends a segment, so empty segments are kept.
pub open spec fn pipe_segments_from(s: Seq<char>, cur: Seq<char>, acc: Seq<Seq<char>>) -> Seq<
    Seq<char>,
>
    decreases s.len(),
{
    if s.len() == 0 {
        acc.push(cur)
    } else if s[0] == '|' {
        pipe_segments_from(s.drop_first(), Seq::empty(), acc.push(cur))
    } else {
        pipe_segments_from(s.drop_first(), cur.push(s[0]), acc)
    }
}

/// The segments of `s` between pipe characters, in order; a line without a
/// pipe character is one segment.
pub open spec fn pipe_segments(s: Seq<char>) -> Seq<Seq<char>> {
    pipe_segments_from(s, Seq::empty(), Seq::empty())
}

/// Segments already finished stand in front of whatever the rest of the walk
/// yields.
proof fn lemma_pipe_segments_from_acc(s: Seq<char>, cur: Seq<char>, acc: Seq<Seq<char>>)
    ensures
        pipe_segments_from(s, cur, acc) == acc + pipe_segments_from(s, cur, Seq::empty()),
    decreases s.len(),
{
    let e: Seq<Seq<char>> = Seq::empty();
    if s.len() == 0 {
        assert(acc + e.push(cur) =~= acc.push(cur));
    } else if s[0] == '|' {
        lemma_pipe_segments_from_acc(s.drop_first(), Seq::empty(), acc.push(cur));
        lemma_pipe_segments_from_acc(s.drop_first(), Seq::empty(), e.push(cur));
        let w = pipe_segments_from(s.drop_first(), Seq::empty(), e);
        assert(acc.push(cur) + w =~= acc + (e.push(cur) + w));
    } else {
        lemma_pipe_segments_from_acc(s.drop_first(), cur.push(s[0]), acc);
    }
}

/// Splits `line` on the pipe character into its segments, left to right.
fn split_segments(line: &str) -> (segments: Vec<String>)
    ensures
        segments.deep_view() == pipe_segments(line@),
{
    let n = line.unicode_len();
    let mut segments: Vec<String> = Vec::new();
    let mut i: usize = 0;
    let mut start: usize = 0;
    proof {
        assert(line@.skip(0) =~= line@);
        assert(line@.subrange(0, 0) =~= Seq::<char>::empty());
        assert(segments.deep_view() =~= Seq::<Seq<char>>::empty());
        assert(Seq::<Seq<char>>::empty() + pipe_segments(line@) =~= pipe_segments(line@));
    }
    while i < n
        invariant
            n == line@.len(),
            start <= i <= n,
            pipe_segments(line@) == segments.deep_view() + pipe_segments_from(
                line@.skip(i as int),
                line@.subrange(start as int, i as int),
                Seq::empty(),
            ),
        decreases n - i,
    {
        let c = line.get_char(i);
        let ghost cur = line@.subrange(start as int, i as int);
        if c == '|' {
            let seg = String::from_str(line.substring_char(start, i));
            proof {
                let rest = line@.skip(i as int);
                lemma_pipe_segments_from_acc(
                    rest.drop_first(),
                    Seq::empty(),
                    Seq::<Seq<char>>::empty().push(cur),
                );
                let w = pipe_segments_from(rest.drop_first(), Seq::empty(), Seq::empty());
                assert(rest.drop_first() =~= line@.skip(i as int + 1));
                assert(Seq::<Seq<char>>::empty().push(cur) + w =~= seq![cur] + w);
                let old_views = segments.deep_view();
                assert((old_views + (seq![cur] + w)) =~= (old_views.push(cur) + w));
                assert(line@.subrange(i as int + 1, i as int + 1) =~= Seq::<char>::empty());
            }
            let ghost old_segments = segments;
            segments.push(seg);
            proof {
                assert(segments.deep_view() =~= old_segments.deep_view().push(cur));
            }
            i = i + 1;
            start = i;
        } else {
            proof {
                assert(line@.skip(i as int).drop_first() =~= line@.skip(i as int + 1));
                assert(cur.push(line@[i as int]) =~= line@.subrange(start as int, i as int + 1));
            }
            i = i + 1;
        }
    }
    let seg = String::from_str(line.substring_char(start, n));
    proof {
        assert(line@.skip(n as int) =~= Seq::<char>::empty());
        let old_views = segments.deep_view();
        assert(old_views + Seq::<Seq<char>>::empty().push(seg@) =~= old_views.push(seg@));
    }
    let ghost old_segments = segments;
    segments.push(seg);
    proof {
        assert(segments.deep_view() =~= old_segments.deep_view().push(seg@));
    }
    segments
}

/// One executable stage triple as its mathematical value: segment index,
/// command characters, argument character sequences.
pub open spec fn stage_view(t: (usize, String, Vec<String>)) -> (int, Seq<char>, Seq<Seq<char>>) {
    (t.0 as int, t.1@, t.2.deep_view())
}

/// The mathematical value of an executable stage sequence.
pub open spec fn stages_view(s: Seq<(usize, String, Vec<String>)>) -> Seq<
    (int, Seq<char>, Seq<Seq<char>>),
> {
    s.map_values(|t: (usize, String, Vec<String>)| stage_view(t))
}

/// The stages the segments `segs` yield when the next kept stage gets index
/// `idx`: a segment without a command token is dropped and not counted, so a
/// stage's index is its ordinal position in the resulting pipeline.
pub open spec fn stages_from(segs: Seq<Seq<char>>, idx: int) -> Seq<
    (int, Seq<char>, Seq<Seq<char>>),
>
    decreases segs.len(),
{
    if segs.len() == 0 {
        Seq::empty()
    } else {
        let toks = ws_tokens(segs[0]);
        if toks.len() == 0 {
            stages_from(segs.drop_first(), idx)
        } else {
            seq![(idx, toks[0], toks.drop_first())] + stages_from(segs.drop_first(), idx + 1)
        }
    }
}

/// The pipeline a raw command line denotes: its pipe-separated segments,
/// each split into command and arguments, empty segments dropped.
pub open spec fn parsed_stages(s: Seq<char>) -> Seq<(int, Seq<char>, Seq<Seq<char>>)> {
    stages_from(pipe_segments(s), 0)
}

/// Splits a raw command line on the pipe character and parses each segment
/// into a (stage index, command, arguments) stage, dropping segments that
/// hold no command token; the index is the stage's ordinal position in the
/// resulting pipeline.
pub fn parse_cli(cli: &str) -> (r: Vec<(usize, String, Vec<String>)>)
    ensures
        stages_view(r@) == parsed_stages(cli@),
{
    let segments = split_segments(cli);
    let mut parsed: Vec<(usize, String, Vec<String>)> = Vec::new();
    let mut k: usize = 0;
    proof {
        assert(segments.deep_view().skip(0) =~= segments.deep_view());
        assert(stages_view(parsed@) =~= Seq::<(int, Seq<char>, Seq<Seq<char>>)>::empty());
        assert(Seq::<(int, Seq<char>, Seq<Seq<char>>)>::empty() + parsed_stages(cli@)
            =~= parsed_stages(cli@));
    }
    while k < segments.len()
        invariant
            segments.deep_view() == pipe_segments(cli@),
            k <= segments.len(),
            parsed@.len() <= k,
            parsed_stages(cli@) == stages_view(parsed@) + stages_from(
                segments.deep_view().skip(k as int),
                parsed@.len() as int,
            ),
        decreases segments.len() - k,
    {
        let ghost segs_rest = segments.deep_view().skip(k as int);
        proof {
            assert(segments.deep_view().len() == segments@.len());
            assert(segs_rest[0] == segments.deep_view()[k as int]);
            assert(segs_rest.drop_first() =~= segments.deep_view().skip(k as int + 1));
        }
        match parse_command(segments[k].as_str()) {
            Some((cmd, args)) => {
                let stage = (parsed.len(), cmd, args);
                proof {
                    let p = parsed@.len() as int;
                    let toks = ws_tokens(segs_rest[0]);
                    assert(stage_view(stage) == (p, toks[0], toks.drop_first()));
                    let old_views = stages_view(parsed@);
                    assert(stages_view(parsed@.push(stage)) =~= old_views.push(
                        stage_view(stage),
                    ));
                    let rest = stages_from(segs_rest.drop_first(), p + 1);
                    assert((old_views + (seq![stage_view(stage)] + rest)) =~= (old_views.push(
                        stage_view(stage),
                    ) + rest));
                }
                parsed.push(stage);
            },
            None => {},
        }
        k = k + 1;
    }
    proof {
        assert(segments.deep_view().skip(segments@.len() as int) =~= Seq::<Seq<char>>::empty());
        assert(stages_view(parsed@) + Seq::<(int, Seq<char>, Seq<Seq<char>>)>::empty()
            =~= stages_view(parsed@));
    }
    parsed
}

proof fn lemma_ws_tokens_from_nonempty(s: Seq<char>, cur: Seq<char>, acc: Seq<Seq<char>>)
    requires
        forall|j: int| 0 <= j < acc.len() ==> (#[trigger] acc[j]).len() > 0,
    ensures
        forall|j: int| 0 <= j < ws_tokens_from(s, cur, acc).len() ==> (#[trigger] ws_tokens_from(
            s,
            cur,
            acc,
        )[j]).len() > 0,
    decreases s.len(),
{
    if cur.len() > 0 {
        assert forall|j: int| 0 <= j < acc.push(cur).len() implies (#[trigger] acc.push(cur)[j]).len()
            > 0 by {
            if j < acc.len() {
                assert(acc.push(cur)[j] == acc[j]);
            } else {
                assert(acc.push(cur)[j] == cur);
            }
        }
    }
    let res = ws_tokens_from(s, cur, acc);
    if s.len() == 0 {
        if cur.len() == 0 {
            assert(res == acc);
        } else {
            assert(res == acc.push(cur));
        }
    } else if is_shell_space(s[0]) {
        if cur.len() == 0 {
            lemma_ws_tokens_from_nonempty(s.drop_first(), cur, acc);
            assert(res == ws_tokens_from(s.drop_first(), cur, acc));
        } else {
            lemma_ws_tokens_from_nonempty(s.drop_first(), Seq::empty(), acc.push(cur));
            assert(res == ws_tokens_from(s.drop_first(), Seq::empty(), acc.push(cur)));
        }
    } else {
        lemma_ws_tokens_from_nonempty(s.drop_first(), cur.push(s[0]), acc);
        assert(res == ws_tokens_from(s.drop_first(), cur.push(s[0]), acc));
    }
}

/// Every token the whitespace split yields is non-empty.
pub proof fn lemma_ws_tokens_nonempty(s: Seq<char>)
    ensures
        forall|j: int| 0 <= j < ws_tokens(s).len() ==> (#[trigger] ws_tokens(s)[j]).len() > 0,
{
    lemma_ws_tokens_from_nonempty(s, Seq::empty(), Seq::empty());
}

proof fn lemma_stages_from_well_formed(segs: Seq<Seq<char>>, idx: int)
    ensures
        forall|j: int| 0 <= j < stages_from(segs, idx).len() ==> (#[trigger] stages_from(
            segs,
            idx,
        )[j]).0 == idx + j && stages_from(segs, idx)[j].1.len() > 0,
    decreases segs.len(),
{
    if segs.len() == 0 {
    } else {
        lemma_ws_tokens_nonempty(segs[0]);
        let toks = ws_tokens(segs[0]);
        let res = stages_from(segs, idx);
        if toks.len() == 0 {
            lemma_stages_from_well_formed(segs.drop_first(), idx);
            assert(res == stages_from(segs.drop_first(), idx));
        } else {
            lemma_stages_from_well_formed(segs.drop_first(), idx + 1);
            let head = (idx, toks[0], toks.drop_first());
            let rest = stages_from(segs.drop_first(), idx + 1);
            assert(res == seq![head] + rest);
            assert(res[0] == head);
            assert forall|j: int|
                0 <= j < res.len() implies (#[trigger] res[j]).0 == idx + j && res[j].1.len()
                > 0 by {
                if j == 0 {
                    assert(toks[0].len() > 0);
                } else {
                    assert(res[j] == rest[j - 1]);
                }
            }
        }
    }
}

/// Laws of a parsed pipeline: every stage carries a non-empty command, and
/// its index is exactly its ordinal position in the pipeline, so indices run
/// contiguously from zero in order.
pub proof fn lemma_parsed_stages_well_formed(s: Seq<char>)
    ensures
        forall|j: int| 0 <= j < parsed_stages(s).len() ==> (#[trigger] parsed_stages(s)[j]).0 == j
            && parsed_stages(s)[j].1.len() > 0,
{
    lemma_stages_from_well_formed(pipe_segments(s), 0);
}

/// Whether `s` holds any non-whitespace character.
pub open spec fn has_token_char(s: Seq<char>) -> bool {
    exists|j: int| 0 <= j < s.len() && !is_shell_space(s[j])
}

/// Whether some segment holds a non-whitespace character.
pub open spec fn some_segment_has_token_char(segs: Seq<Seq<char>>) -> bool {
    exists|k: int| 0 <= k < segs.len() && has_token_char(#[trigger] segs[k])
}

proof fn lemma_ws_tokens_from_len(s: Seq<char>, cur: Seq<char>, acc: Seq<Seq<char>>)
    ensures
        ws_tokens_from(s, cur, acc).len() >= acc.len(),
    decreases s.len(),
{
    if s.len() == 0 {
    } else if is_shell_space(s[0]) {
        if cur.len() == 0 {
            lemma_ws_tokens_from_len(s.drop_first(), cur, acc);
        } else {
            lemma_ws_tokens_from_len(s.drop_first(), Seq::empty(), acc.push(cur));
        }
    } else {
        lemma_ws_tokens_from_len(s.drop_first(), cur.push(s[0]), acc);
    }
}

proof fn lemma_ws_tokens_from_some(s: Seq<char>, cur: Seq<char>, acc: Seq<Seq<char>>)
    requires
        cur.len() > 0 || has_token_char(s),
    ensures
        ws_tokens_from(s, cur, acc).len() > acc.len(),
    decreases s.len(),
{
    let res = ws_tokens_from(s, cur, acc);
    if s.len() == 0 {
        assert(cur.len() > 0);
        assert(res == acc.push(cur));
    } else if is_shell_space(s[0]) {
        if cur.len() == 0 {
            let j = choose|j: int| 0 <= j < s.len() && !is_shell_space(s[j]);
            assert(s.drop_first()[j - 1] == s[j]);
            assert(has_token_char(s.drop_first()));
            lemma_ws_tokens_from_some(s.drop_first(), cur, acc);
        } else {
            lemma_ws_tokens_from_len(s.drop_first(), Seq::empty(), acc.push(cur));
            assert(ws_tokens_from(s.drop_first(), Seq::empty(), acc.push(cur)).len() > acc.len());
        }
    } else {
        lemma_ws_tokens_from_some(s.drop_first(), cur.push(s[0]), acc);
    }
}

/// A segment holding any non-whitespace character yields at least one token.
pub proof fn lemma_ws_tokens_some(s: Seq<char>)
    requires
        has_token_char(s),
    ensures
        ws_tokens(s).len() > 0,
{
    lemma_ws_tokens_from_some(s, Seq::empty(), Seq::empty());
}

proof fn lemma_pipe_segments_from_some(s: Seq<char>, cur: Seq<char>, acc: Seq<Seq<char>>)
    requires
        some_segment_has_token_char(acc) || has_token_char(cur) || exists|j: int|
            0 <= j < s.len() && !is_shell_space(s[j]) && s[j] != '|',
    ensures
        some_segment_has_token_char(pipe_segments_from(s, cur, acc)),
    decreases s.len(),
{
    let res = pipe_segments_from(s, cur, acc);
    if s.len() == 0 {
        assert(res == acc.push(cur));
        if some_segment_has_token_char(acc) {
            let k = choose|k: int| 0 <= k < acc.len() && has_token_char(#[trigger] acc[k]);
            assert(res[k] == acc[k]);
            assert(some_segment_has_token_char(res));
        } else {
            assert(has_token_char(cur));
            assert(res[acc.len() as int] == cur);
            assert(some_segment_has_token_char(res));
        }
    } else if s[0] == '|' {
        let acc2 = acc.push(cur);
        if some_segment_has_token_char(acc) {
            let k = choose|k: int| 0 <= k < acc.len() && has_token_char(#[trigger] acc[k]);
            assert(acc2[k] == acc[k]);
            assert(some_segment_has_token_char(acc2));
        } else if has_token_char(cur) {
            assert(acc2[acc.len() as int] == cur);
            assert(some_segment_has_token_char(acc2));
        } else {
            let j = choose|j: int|
                0 <= j < s.len() && !is_shell_space(s[j]) && s[j] != '|';
            assert(j != 0);
            assert(s.drop_first()[j - 1] == s[j]);
        }
        lemma_pipe_segments_from_some(s.drop_first(), Seq::empty(), acc2);
    } else {
        let cur2 = cur.push(s[0]);
        if some_segment_has_token_char(acc) {
        } else if has_token_char(cur) {
            let j = choose|j: int| 0 <= j < cur.len() && !is_shell_space(cur[j]);
            assert(cur2[j] == cur[j]);
            assert(has_token_char(cur2));
        } else {
            let j = choose|j: int|
                0 <= j < s.len() && !is_shell_space(s[j]) && s[j] != '|';
            if j == 0 {
                assert(cur2[cur.len() as int] == s[0]);
                assert(has_token_char(cur2));
            } else {
                assert(s.drop_first()[j - 1] == s[j]);
            }
        }
        lemma_pipe_segments_from_some(s.drop_first(), cur2, acc);
    }
}

proof fn lemma_stages_from_some(segs: Seq<Seq<char>>, idx: int)
    requires
        some_segment_has_token_char(segs),
    ensures
        stages_from(segs, idx).len() > 0,
    decreases segs.len(),
{
    let k = choose|k: int| 0 <= k < segs.len() && has_token_char(#[trigger] segs[k]);
    if k == 0 {
        lemma_ws_tokens_some(segs[0]);
    } else {
        let toks = ws_tokens(segs[0]);
        assert(segs.drop_first()[k - 1] == segs[k]);
        assert(some_segment_has_token_char(segs.drop_first()));
        if toks.len() == 0 {
            lemma_stages_from_some(segs.drop_first(), idx);
            assert(stages_from(segs, idx) == stages_from(segs.drop_first(), idx));
        } else {
            lemma_stages_from_some(segs.drop_first(), idx + 1);
        }
    }
}

/// A line holding any character that is neither whitespace nor a pipe yields
/// a pipeline of at least one stage.
pub proof fn lemma_nonblank_line_has_a_stage(s: Seq<char>)
    requires
        exists|j: int| 0 <= j < s.len() && !is_shell_space(s[j]) && s[j] != '|',
    ensures
        parsed_stages(s).len() > 0,
{
    lemma_pipe_segments_from_some(s, Seq::empty(), Seq::empty());
    lemma_stages_from_some(pipe_segments(s), 0);
}

/// A parsed command line: the ordered stages of one pipeline.
#[derive(Debug, PartialEq)]
pub struct CommandLine {
    pub commands: Vec<(usize, String, Vec<String>)>,
}

impl CommandLine {
    /// The mathematical value of this command line's stages.
    pub open spec fn spec_stages(&self) -> Seq<(int, Seq<char>, Seq<Seq<char>>)> {
        stages_view(self.commands@)
    }

    /// Parses a raw input line into its pipeline stages.
    pub fn new(rawline: &str) -> (r: Self)
        ensures
            r.spec_stages() == parsed_stages(rawline@),
    {
        CommandLine { commands: parse_cli(rawline) }
    }
}

} // verus!
