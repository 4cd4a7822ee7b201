//! Step context: the labelled, framed bundle of files, line ranges, diffs,
//! revisions, dependency outputs and run inputs that an agent step reads. The
//! reads themselves (files, git) happen outside; this module decides labels,
//! ranges, containment and framing, and digests the bundle.
use crate::inputs::find_from;
use crate::json::JsonValue;
use crate::plan::ContextSource;
use crate::text::decimal;
use crate::text::push_char;
use crate::text::push_str;
use crate::text::str_chars;
use crate::text::to_owned_string;
use crate::text::u64_to_string;
use vstd::prelude::*;

verus! {

/// Framed context and the sources it holds, with the digest of its text.
pub struct ContextBundle {
    pub sha256: String,
    pub content: String,
    pub sources: Vec<String>,
}

#[derive(Debug)]
pub enum ContextError {
    PathEscape(String),
    Io(String),
    Range { path: String, start: usize, end: usize },
    Git(String),
    MissingOutput { step: String, output: String },
    MissingInput(String),
}

// ---------------------------------------------------------------------------
// Labels

/// The texts joined by `sep`.
pub open spec fn join_with(parts: Seq<Seq<char>>, sep: Seq<char>) -> Seq<char>
    decreases parts.len(),
{
    if parts.len() == 0 {
        Seq::empty()
    } else if parts.len() == 1 {
        parts[0]
    } else {
        join_with(parts.drop_last(), sep) + sep + parts.last()
    }
}

pub open spec fn texts_of(v: Seq<String>) -> Seq<Seq<char>> {
    v.map_values(|s: String| s@)
}

/// How a source is named in the bundle.
pub open spec fn label_spec(source: ContextSource) -> Seq<char> {
    match source {
        ContextSource::File { path } => "file:"@ + path@,
        ContextSource::Range { path, start, end } => "range:"@ + path@ + ":"@ + decimal(start as nat) + "-"@
            + decimal(end as nat),
        ContextSource::Diff { from, to, paths } => "diff:"@ + from@ + ".."@ + to@ + ":"@ + join_with(texts_of(paths@), ","@),
        ContextSource::Revision { revision, path } => "revision:"@ + revision@ + ":"@ + path@,
        ContextSource::DependencyOutput { step, output } => "output:"@ + step@ + "."@ + output@,
        ContextSource::Input { input } => "input:"@ + input@,
    }
}

fn join_exec(parts: &Vec<String>, sep: &str) -> (r: String)
    ensures
        r@ == join_with(texts_of(parts@), sep@),
{
    let ghost ps = texts_of(parts@);
    let mut out = String::new();
    let mut i: usize = 0;
    proof {
        assert(ps.take(0) =~= Seq::<Seq<char>>::empty());
    }
    while i < parts.len()
        invariant
            i <= parts@.len(),
            ps == texts_of(parts@),
            out@ == join_with(ps.take(i as int), sep@),
        decreases parts.len() - i,
    {
        if i > 0 {
            push_str(&mut out, sep);
        }
        push_str(&mut out, parts[i].as_str());
        proof {
            let t = ps.take(i + 1);
            assert(t.drop_last() =~= ps.take(i as int));
            assert(t.last() == parts@[i as int]@);
            if i == 0 {
                assert(t.len() == 1);
                assert(out@ =~= t[0]);
            } else {
                assert(out@ =~= join_with(ps.take(i as int), sep@) + sep@ + t.last());
            }
        }
        i = i + 1;
    }
    proof {
        assert(ps.take(i as int) =~= ps);
    }
    out
}

/// The label of a context source.
pub fn context_label(source: &ContextSource) -> (r: String)
    ensures
        r@ == label_spec(*source),
{
    let mut out = String::new();
    match source {
        ContextSource::File { path } => {
            push_str(&mut out, "file:");
            push_str(&mut out, path.as_str());
        },
        ContextSource::Range { path, start, end } => {
            push_str(&mut out, "range:");
            push_str(&mut out, path.as_str());
            push_str(&mut out, ":");
            push_str(&mut out, u64_to_string(*start as u64).as_str());
            push_str(&mut out, "-");
            push_str(&mut out, u64_to_string(*end as u64).as_str());
        },
        ContextSource::Diff { from, to, paths } => {
            push_str(&mut out, "diff:");
            push_str(&mut out, from.as_str());
            push_str(&mut out, "..");
            push_str(&mut out, to.as_str());
            push_str(&mut out, ":");
            push_str(&mut out, join_exec(paths, ",").as_str());
        },
        ContextSource::Revision { revision, path } => {
            push_str(&mut out, "revision:");
            push_str(&mut out, revision.as_str());
            push_str(&mut out, ":");
            push_str(&mut out, path.as_str());
        },
        ContextSource::DependencyOutput { step, output } => {
            push_str(&mut out, "output:");
            push_str(&mut out, step.as_str());
            push_str(&mut out, ".");
            push_str(&mut out, output.as_str());
        },
        ContextSource::Input { input } => {
            push_str(&mut out, "input:");
            push_str(&mut out, input.as_str());
        },
    }
    proof {
        assert(out@ =~= label_spec(*source));
    }
    out
}

// ---------------------------------------------------------------------------
// Line ranges

/// `str::lines`: split at `\n`; a line ended by `\r\n` loses the `\r`; a final
/// `\n` ends the last line rather than starting an empty one.
pub open spec fn lines_of(t: Seq<char>) -> Seq<Seq<char>>
    decreases t.len(),
{
    if t.len() == 0 {
        Seq::empty()
    } else {
        match find_from(t, seq!['\n'], 0) {
            Some(i) => if 0 <= i < t.len() {
                let line = t.take(i);
                let line = if line.len() > 0 && line.last() == '\r' { line.drop_last() } else { line };
                seq![line] + lines_of(t.skip(i + 1))
            } else {
                seq![t]
            },
            None => seq![t],
        }
    }
}

fn lines_exec(text: &str) -> (r: Vec<String>)
    ensures
        texts_of(r@) == lines_of(text@),
{
    let mut out: Vec<String> = Vec::new();
    let mut rest: Vec<char> = str_chars(text);
    proof {
        assert(texts_of(out@) + lines_of(rest@) =~= lines_of(text@));
    }
    loop
        invariant
            lines_of(text@) == texts_of(out@) + lines_of(rest@),
        decreases rest@.len(),
    {
        if rest.len() == 0 {
            proof {
                assert(texts_of(out@) + lines_of(rest@) =~= texts_of(out@));
            }
            return out;
        }
        let rs = rest.as_slice();
        let n = rs.len();
        match crate::inputs::find_char(rs, '\n') {
            None => {
                let ghost before = texts_of(out@);
                out.push(crate::text::string_from_chars(rs));
                proof {
                    assert(texts_of(out@) =~= before.push(rest@));
                    assert(before + seq![rest@] =~= before.push(rest@));
                }
                return out;
            },
            Some(i) => {
                let ghost r = rest@;
                let ghost before = texts_of(out@);
                let keep = if i > 0 && rs[i - 1] == '\r' { i - 1 } else { i };
                let line = crate::text::slice_subrange(rs, 0, keep);
                out.push(crate::text::string_from_chars(line));
                let tail = crate::text::slice_subrange(rs, i + 1, n);
                let next = vstd::slice::slice_to_vec(tail);
                proof {
                    let l = r.take(i as int);
                    let l2 = if l.len() > 0 && l.last() == '\r' { l.drop_last() } else { l };
                    assert(line@ =~= l2);
                    assert(next@ =~= r.skip(i + 1));
                    assert(texts_of(out@) =~= before.push(l2));
                    assert(before + (seq![l2] + lines_of(next@)) =~= before.push(l2) + lines_of(next@));
                }
                rest = next;
            },
        }
    }
}

/// Lines `start..=end` (1-based) of a file, each ended by `\n`.
pub open spec fn range_spec(path: Seq<char>, text: Seq<char>, start: int, end: int) -> Result<Seq<char>, (Seq<char>, int, int)> {
    let lines = lines_of(text);
    if start == 0 || start > end || end > lines.len() {
        Err((path, start, end))
    } else {
        Ok(join_with(lines.subrange(start - 1, end), seq!['\n']) + seq!['\n'])
    }
}

/// Each line followed by a newline, one after another.
pub open spec fn newline_ended(lines: Seq<Seq<char>>) -> Seq<char>
    decreases lines.len(),
{
    if lines.len() == 0 {
        Seq::empty()
    } else {
        newline_ended(lines.drop_last()) + lines.last() + seq!['\n']
    }
}

proof fn lemma_join_newline_ended(lines: Seq<Seq<char>>)
    requires
        lines.len() > 0,
    ensures
        join_with(lines, seq!['\n']) + seq!['\n'] == newline_ended(lines),
    decreases lines.len(),
{
    if lines.len() == 1 {
        assert(lines.drop_last().len() == 0);
        assert(newline_ended(lines.drop_last()) =~= Seq::<char>::empty());
        assert(lines.last() == lines[0]);
        assert(Seq::<char>::empty() + lines[0] + seq!['\n'] =~= lines[0] + seq!['\n']);
    } else {
        lemma_join_newline_ended(lines.drop_last());
        assert(join_with(lines, seq!['\n']) + seq!['\n'] =~= (join_with(lines.drop_last(), seq!['\n']) + seq!['\n'])
            + lines.last() + seq!['\n']);
    }
}

/// A line range `start..=end` (1-based) within the file's lines gives exactly
/// those lines, each followed by a newline (so `start == end` gives that one
/// line); any other range is refused with the path and the range.
pub proof fn lemma_range_selects_lines(path: Seq<char>, text: Seq<char>, start: int, end: int)
    ensures
        1 <= start <= end <= lines_of(text).len() ==>
            range_spec(path, text, start, end) == Ok::<Seq<char>, (Seq<char>, int, int)>(newline_ended(lines_of(text).subrange(start - 1, end))),
        1 <= start <= lines_of(text).len() ==>
            range_spec(path, text, start, start) == Ok::<Seq<char>, (Seq<char>, int, int)>(lines_of(text)[start - 1] + seq!['\n']),
        !(1 <= start <= end <= lines_of(text).len()) && start >= 0 ==>
            range_spec(path, text, start, end) == Err::<Seq<char>, (Seq<char>, int, int)>((path, start, end)),
{
    let lines = lines_of(text);
    if 1 <= start <= end <= lines.len() {
        lemma_join_newline_ended(lines.subrange(start - 1, end));
    }
    if 1 <= start <= lines.len() {
        let one = lines.subrange(start - 1, start);
        lemma_join_newline_ended(one);
        assert(one.drop_last() =~= Seq::<Seq<char>>::empty());
        assert(newline_ended(one.drop_last()) =~= Seq::<char>::empty());
        assert(one.last() == lines[start - 1]);
        assert(newline_ended(one) =~= lines[start - 1] + seq!['\n']);
    }
}

/// The body of a line-range source, or the range error.
pub fn range_body(path: &str, text: &str, start: usize, end: usize) -> (r: Result<String, ContextError>)
    ensures
        match range_spec(path@, text@, start as int, end as int) {
            Ok(b) => r matches Ok(s) && s@ == b,
            Err((p, s, e)) => r matches Err(ContextError::Range { path: rp, start: rs, end: re }) && rp@ == p
                && rs == s && re == e,
        },
{
    let lines = lines_exec(text);
    if start == 0 || start > end || end > lines.len() {
        return Err(ContextError::Range { path: to_owned_string(path), start, end });
    }
    let mut selected: Vec<String> = Vec::new();
    let mut i: usize = start - 1;
    let ghost ls = texts_of(lines@);
    proof {
        assert(texts_of(selected@) =~= ls.subrange(start - 1, start - 1));
    }
    while i < end
        invariant
            start - 1 <= i <= end,
            end <= lines@.len(),
            start >= 1,
            ls == texts_of(lines@),
            texts_of(selected@) == ls.subrange(start - 1, i as int),
        decreases end - i,
    {
        let ghost before = texts_of(selected@);
        selected.push(lines[i].clone());
        proof {
            assert(texts_of(selected@) =~= before.push(ls[i as int]));
            assert(ls.subrange(start - 1, i + 1) =~= ls.subrange(start - 1, i as int).push(ls[i as int]));
        }
        i = i + 1;
    }
    let mut body = join_exec(&selected, "\n");
    push_char(&mut body, '\n');
    proof {
        reveal_strlit("\n");
        assert("\n"@ =~= seq!['\n']);
    }
    Ok(body)
}

// ---------------------------------------------------------------------------
// Guards

/// A `git show` revision or path may not look like an option.
pub fn revision_guard(revision: &str, path: &str) -> (r: Result<(), ContextError>)
    ensures
        r is Ok <==> !((path@.len() > 0 && path@[0] == '-') || (revision@.len() > 0 && revision@[0] == '-')),
        r matches Err(e) ==> e matches ContextError::Git(m) && m@ == "revision and path must not start with `-`"@,
{
    let p = str_chars(path);
    let v = str_chars(revision);
    if (p.len() > 0 && p[0] == '-') || (v.len() > 0 && v[0] == '-') {
        return Err(ContextError::Git(to_owned_string("revision and path must not start with `-`")));
    }
    Ok(())
}

/// `Path::starts_with` on resolved paths: the same rootedness, and the root's
/// components a prefix of the candidate's.
pub open spec fn path_within(root: Seq<char>, candidate: Seq<char>) -> bool {
    let a = crate::query::path_parts(root);
    let b = crate::query::path_parts(candidate);
    crate::lexical::is_absolute(root) == crate::lexical::is_absolute(candidate) && a.len() <= b.len() && b.take(
        a.len() as int,
    ) == a
}

/// A resolved source path must stay inside the resolved repository.
pub fn contained(root: &str, canonical: &str, relative: &str) -> (r: Result<(), ContextError>)
    ensures
        r is Ok <==> path_within(root@, canonical@),
        r matches Err(e) ==> e matches ContextError::PathEscape(p) && p@ == relative@,
{
    let a = crate::query::parts_of(root);
    let b = crate::query::parts_of(canonical);
    let ghost av = a@.map_values(|p: String| p@);
    let ghost bv = b@.map_values(|p: String| p@);
    let ra = str_chars(root);
    let rb = str_chars(canonical);
    let abs_a = ra.len() > 0 && ra[0] == '/';
    let abs_b = rb.len() > 0 && rb[0] == '/';
    if abs_a != abs_b || a.len() > b.len() {
        return Err(ContextError::PathEscape(to_owned_string(relative)));
    }
    let mut i: usize = 0;
    while i < a.len()
        invariant
            i <= a@.len(),
            a@.len() <= b@.len(),
            av == a@.map_values(|p: String| p@),
            bv == b@.map_values(|p: String| p@),
            av == crate::query::path_parts(root@),
            bv == crate::query::path_parts(canonical@),
            forall|k: int| 0 <= k < i ==> #[trigger] bv[k] == av[k],
        decreases a.len() - i,
    {
        if !crate::text::str_eq(a[i].as_str(), b[i].as_str()) {
            proof {
                assert(bv.take(av.len() as int)[i as int] != av[i as int]);
                assert(bv.take(av.len() as int) != av);
            }
            return Err(ContextError::PathEscape(to_owned_string(relative)));
        }
        i = i + 1;
    }
    proof {
        assert(bv.take(av.len() as int) =~= av);
    }
    Ok(())
}

// ---------------------------------------------------------------------------
// Values

/// The value under `key` among named values.
pub open spec fn named_value(ms: Seq<(String, JsonValue)>, key: Seq<char>) -> Option<JsonValue> {
    crate::inputs::lookup_entry(ms, key)
}

/// The body of a run-input source: the input's rendered value.
pub fn input_body(inputs: &Vec<(String, JsonValue)>, input: &str) -> (r: Result<String, ContextError>)
    ensures
        match named_value(inputs@, input@) {
            Some(v) => r matches Ok(s) && s@ == crate::inputs::render_text(crate::inputs::json_view(v)),
            None => r matches Err(e) && e matches ContextError::MissingInput(n) && n@ == input@,
        },
{
    match crate::inputs::find_entry(inputs, input) {
        Some(v) => Ok(crate::inputs::render_value(v)),
        None => Err(ContextError::MissingInput(to_owned_string(input))),
    }
}

/// The dependency output a source names, to be written out as pretty JSON.
pub fn dependency_output<'a>(outputs: &'a Vec<(String, Vec<(String, JsonValue)>)>, step: &str, output: &str)
    -> (r: Result<&'a JsonValue, ContextError>)
    ensures
        match crate::inputs::lookup_outputs(outputs@, step@) {
            Some(values) => match named_value(values, output@) {
                Some(v) => r matches Ok(x) && *x == v,
                None => r matches Err(e) && e matches ContextError::MissingOutput { step: s, output: o } && s@ == step@
                    && o@ == output@,
            },
            None => r matches Err(e) && e matches ContextError::MissingOutput { step: s, output: o } && s@ == step@
                && o@ == output@,
        },
{
    match crate::inputs::find_outputs(outputs, step) {
        Some(values) => match crate::inputs::find_entry(values, output) {
            Some(v) => Ok(v),
            None => Err(ContextError::MissingOutput { step: to_owned_string(step), output: to_owned_string(output) }),
        },
        None => Err(ContextError::MissingOutput { step: to_owned_string(step), output: to_owned_string(output) }),
    }
}

// ---------------------------------------------------------------------------
// Framing

/// One framed section appended to `content`.
pub open spec fn framed(content: Seq<char>, label: Seq<char>, body: Seq<char>) -> Seq<char> {
    let opened = content + "<<< ORCHESTRA CONTEXT "@ + label + " >>>\n"@ + body;
    let closed = if opened.len() > 0 && opened.last() == '\n' { opened } else { opened.push('\n') };
    closed + "<<< END ORCHESTRA CONTEXT "@ + label + " >>>\n"@
}

/// Appends one source's framed section to the bundle text.
pub fn append_section(content: &mut String, label: &str, body: &str)
    ensures
        final(content)@ == framed(old(content)@, label@, body@),
{
    push_str(content, "<<< ORCHESTRA CONTEXT ");
    push_str(content, label);
    push_str(content, " >>>\n");
    push_str(content, body);
    let chars = str_chars(content.as_str());
    let n = chars.len();
    if !(n > 0 && chars[n - 1] == '\n') {
        push_char(content, '\n');
    }
    push_str(content, "<<< END ORCHESTRA CONTEXT ");
    push_str(content, label);
    push_str(content, " >>>\n");
}

/// The bundle of framed content and its source labels, digested.
pub fn finish_bundle(content: String, sources: Vec<String>) -> (r: ContextBundle)
    ensures
        r.content@ == content@,
        r.sources@ == sources@,
        r.sha256@ == crate::digest::sha256_hex(content@),
{
    let sha256 = crate::digest::sha256_hex_str(content.as_str());
    ContextBundle { sha256, content, sources }
}

/// The arguments of the `git diff` a diff source runs.
pub fn diff_args(from: &str, to: &str, paths: &Vec<String>) -> (r: Vec<String>)
    ensures
        texts_of(r@) == seq!["diff"@, "--no-ext-diff"@, "--binary"@, from@, to@, "--"@] + texts_of(paths@),
{
    let mut args: Vec<String> = Vec::new();
    args.push(to_owned_string("diff"));
    args.push(to_owned_string("--no-ext-diff"));
    args.push(to_owned_string("--binary"));
    args.push(to_owned_string(from));
    args.push(to_owned_string(to));
    args.push(to_owned_string("--"));
    let ghost head = texts_of(args@);
    let mut i: usize = 0;
    while i < paths.len()
        invariant
            i <= paths@.len(),
            head == seq!["diff"@, "--no-ext-diff"@, "--binary"@, from@, to@, "--"@],
            texts_of(args@) == head + texts_of(paths@).take(i as int),
        decreases paths.len() - i,
    {
        let ghost before = texts_of(args@);
        args.push(paths[i].clone());
        proof {
            assert(texts_of(args@) =~= before.push(paths@[i as int]@));
            assert(texts_of(paths@).take(i + 1) =~= texts_of(paths@).take(i as int).push(paths@[i as int]@));
        }
        i = i + 1;
    }
    proof {
        assert(texts_of(paths@).take(i as int) =~= texts_of(paths@));
    }
    args
}

/// The object `git show` reads for a revision source.
pub fn show_object(revision: &str, path: &str) -> (r: String)
    ensures
        r@ == revision@ + ":"@ + path@,
{
    let mut s = to_owned_string(revision);
    push_str(&mut s, ":");
    push_str(&mut s, path);
    s
}

} // verus!
