//! Lexical path resolution: what `Path::components` sees in a `/`-separated
//! path, with `.` dropped and `..` folded, without consulting the file system.
use crate::segments::split_on_slash;
use crate::segments::split_slash;
use crate::text::str_chars;
use crate::text::string_from_chars;
use vstd::prelude::*;

verus! {

pub open spec fn is_absolute(s: Seq<char>) -> bool {
    s.len() > 0 && s[0] == '/'
}

pub open spec fn is_cur_dir(p: Seq<char>) -> bool {
    p == seq!['.']
}

pub open spec fn is_parent_dir(p: Seq<char>) -> bool {
    p == seq!['.', '.']
}

/// The normal components of a path's parts: empty and `.` parts vanish, and
/// `..` removes the last component kept so far, if any.
pub open spec fn fold_components(parts: Seq<Seq<char>>) -> Seq<Seq<char>>
    decreases parts.len(),
{
    if parts.len() == 0 {
        Seq::empty()
    } else {
        let prev = fold_components(parts.drop_last());
        let p = parts.last();
        if p.len() == 0 || is_cur_dir(p) {
            prev
        } else if is_parent_dir(p) {
            if prev.len() > 0 { prev.drop_last() } else { prev }
        } else {
            prev.push(p)
        }
    }
}

/// A lexically resolved path: rooted or not, and its normal components.
pub struct LexicalPath {
    pub absolute: bool,
    pub components: Vec<Vec<char>>,
}

pub open spec fn components_view(c: Seq<Vec<char>>) -> Seq<Seq<char>> {
    c.map_values(|p: Vec<char>| p@)
}

/// The model of a path text: its root and its folded components.
pub open spec fn path_model(s: Seq<char>) -> (bool, Seq<Seq<char>>) {
    (is_absolute(s), fold_components(split_slash(s)))
}

pub open spec fn lexical_view(p: LexicalPath) -> (bool, Seq<Seq<char>>) {
    (p.absolute, components_view(p.components@))
}

/// `path` when it is absolute or `base` is empty; otherwise `base/path`.
pub open spec fn joined_path(path: Seq<char>, base: Seq<char>) -> Seq<char> {
    if is_absolute(path) || base.len() == 0 {
        path
    } else {
        base + seq!['/'] + path
    }
}

/// The components joined by `/`.
pub open spec fn join_components(c: Seq<Seq<char>>) -> Seq<char>
    decreases c.len(),
{
    if c.len() == 0 {
        Seq::empty()
    } else if c.len() == 1 {
        c[0]
    } else {
        join_components(c.drop_last()) + seq!['/'] + c.last()
    }
}

/// The text of a resolved path.
pub open spec fn render_path(m: (bool, Seq<Seq<char>>)) -> Seq<char> {
    if m.0 {
        seq!['/'] + join_components(m.1)
    } else {
        join_components(m.1)
    }
}

/// `path` made absolute against `base` and folded lexically.
pub open spec fn lexical_absolute_spec(path: Seq<char>, base: Seq<char>) -> (bool, Seq<Seq<char>>) {
    path_model(joined_path(path, base))
}

fn is_dot(p: &Vec<char>) -> (r: bool)
    ensures
        r == is_cur_dir(p@),
{
    let r = p.len() == 1 && p[0] == '.';
    proof {
        if r {
            assert(p@ =~= seq!['.']);
        }
    }
    r
}

fn is_dot_dot(p: &Vec<char>) -> (r: bool)
    ensures
        r == is_parent_dir(p@),
{
    let r = p.len() == 2 && p[0] == '.' && p[1] == '.';
    proof {
        if r {
            assert(p@ =~= seq!['.', '.']);
        }
    }
    r
}

/// Folds the parts of a path into its normal components.
fn fold_parts(parts: Vec<Vec<char>>) -> (r: Vec<Vec<char>>)
    ensures
        components_view(r@) == fold_components(components_view(parts@)),
{
    let ghost all = components_view(parts@);
    let mut out: Vec<Vec<char>> = Vec::new();
    let mut rest = parts;
    let ghost mut done: int = 0;
    proof {
        assert(all.skip(0) =~= all);
        assert(components_view(out@) =~= fold_components(all.take(0)));
    }
    while rest.len() > 0
        invariant
            0 <= done <= all.len(),
            components_view(rest@) == all.skip(done),
            rest@.len() + done == all.len(),
            components_view(out@) == fold_components(all.take(done)),
        decreases rest.len(),
    {
        proof {
            assert(components_view(rest@)[0] == rest@[0]@);
        }
        let ghost old_rest = rest@;
        let p = rest.remove(0);
        proof {
            assert(components_view(rest@) =~= components_view(old_rest).drop_first());
        }
        proof {
            assert(p@ == all[done]);
            assert(all.take(done + 1).drop_last() =~= all.take(done));
            assert(all.take(done + 1).last() == all[done]);
        }
        if p.len() == 0 || is_dot(&p) {
        } else if is_dot_dot(&p) {
            if out.len() > 0 {
                let ghost before = components_view(out@);
                out.pop();
                proof {
                    assert(components_view(out@) =~= before.drop_last());
                }
            }
        } else {
            let ghost before = components_view(out@);
            out.push(p);
            proof {
                assert(components_view(out@) =~= before.push(all[done]));
            }
        }
        proof {
            done = done + 1;
            assert(components_view(rest@) =~= all.skip(done));
        }
    }
    proof {
        assert(all.take(done) =~= all);
    }
    out
}

/// The lexical model of a path text.
pub fn lexical_model(s: &Vec<char>) -> (r: LexicalPath)
    ensures
        lexical_view(r) == path_model(s@),
{
    let parts = split_on_slash(s);
    let comps = fold_parts(parts);
    LexicalPath { absolute: s.len() > 0 && s[0] == '/', components: comps }
}

/// `path` made absolute against `base`, folded lexically (`lexical_absolute`).
pub fn lexical_absolute(path: &str, base: &str) -> (r: LexicalPath)
    ensures
        lexical_view(r) == lexical_absolute_spec(path@, base@),
{
    let p = str_chars(path);
    let b = str_chars(base);
    let mut joined: Vec<char> = Vec::new();
    if (p.len() > 0 && p[0] == '/') || b.len() == 0 {
        joined = p;
    } else {
        joined = b;
        joined.push('/');
        let mut rest = p;
        joined.append(&mut rest);
    }
    proof {
        assert(joined@ =~= joined_path(path@, base@));
    }
    lexical_model(&joined)
}

/// The text of a resolved path (`to_string_lossy`).
pub fn render_lexical(p: &LexicalPath) -> (r: String)
    ensures
        r@ == render_path(lexical_view(*p)),
{
    let mut out: Vec<char> = Vec::new();
    if p.absolute {
        out.push('/');
    }
    let ghost lead = out@;
    let mut i: usize = 0;
    while i < p.components.len()
        invariant
            i <= p.components@.len(),
            lead == (if p.absolute { seq!['/'] } else { Seq::<char>::empty() }),
            out@ == lead + join_components(components_view(p.components@).take(i as int)),
        decreases p.components.len() - i,
    {
        let ghost c = components_view(p.components@);
        proof {
            assert(c.take(i + 1).drop_last() =~= c.take(i as int));
            assert(c.take(i + 1).last() == p.components@[i as int]@);
        }
        if i > 0 {
            out.push('/');
        }
        let mut part = p.components[i].clone();
        out.append(&mut part);
        proof {
            if i == 0 {
                assert(c.take(1) =~= seq![c[0]]);
                assert(out@ =~= lead + join_components(c.take(1)));
            } else {
                assert(out@ =~= lead + join_components(c.take(i + 1)));
            }
        }
        i = i + 1;
    }
    proof {
        assert(components_view(p.components@).take(p.components@.len() as int) =~= components_view(p.components@));
        assert(out@ =~= render_path(lexical_view(*p)));
    }
    string_from_chars(out.as_slice())
}

} // verus!
