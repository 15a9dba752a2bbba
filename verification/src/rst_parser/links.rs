//! The link resolver.
//!
//! A document may hold out-of-line definitions, `.. _name: target` lines, and
//! inline references `` `name`_ ``. Resolution collects every definition
//! (later definitions of the same name overwrite earlier ones), removes the
//! definition lines from the text, and then rewrites every reference into
//! `<a class="link" href="TARGET">NAME</a>`, with an empty `href` when the
//! name has no definition. It never fails: unresolved names degrade to empty
//! targets rather than aborting.
//!
//! A definition match is an optional leading newline, the prefix `.. _`, a
//! name, the separator `: `, a target and a terminating newline; the name
//! extends to the last `: ` of the line. A reference match is a backtick, a
//! name and the closing pair `` `_ ``; the name extends to the last closing
//! pair on the line. Scanning is leftmost; a position inside no match is
//! copied through unchanged.

use vstd::prelude::*;

use crate::rst_parser::rst_error::RSTError;
use crate::rst_parser::text::{
    chars_eq, chars_to_string, copy_range, find_from, find_from_exec, has_substring,
    lemma_find_from, lemma_has_substring_at, lemma_has_substring_extend_left, lemma_rfind_pair,
    append_chars, push_str_chars, rfind_pair, rfind_pair_exec, str_to_chars,
};

verus! {

/// One collected definition: a name and the target it maps to.
pub struct LinkDef {
    pub name: Seq<char>,
    pub target: Seq<char>,
}

/// The prefix `.. _` of a definition body stands at `i`.
pub open spec fn is_def_prefix(t: Seq<char>, i: int) -> bool {
    &&& 0 <= i
    &&& i + 4 <= t.len()
    &&& t[i] == '.'
    &&& t[i + 1] == '.'
    &&& t[i + 2] == ' '
    &&& t[i + 3] == '_'
}

/// Where the line of a definition body starting at `i` ends: the first
/// newline at or after the name position.
pub open spec fn def_line_end(t: Seq<char>, i: int) -> int {
    find_from(t, i + 4, '\n')
}

/// The separator of a definition body at `i`: the last `: ` of its line,
/// splitting the (maximal) name from the target.
pub open spec fn def_sep(t: Seq<char>, i: int) -> int {
    rfind_pair(t, i + 4, def_line_end(t, i), ':', ' ')
}

/// A definition body (`.. _` name `: ` target, newline-terminated) stands at
/// `i`.
pub open spec fn def_body_matches(t: Seq<char>, i: int) -> bool {
    &&& is_def_prefix(t, i)
    &&& def_line_end(t, i) < t.len()
    &&& def_sep(t, i) >= 0
}

pub open spec fn def_name(t: Seq<char>, i: int) -> Seq<char>
    recommends
        def_body_matches(t, i),
{
    t.subrange(i + 4, def_sep(t, i))
}

pub open spec fn def_target(t: Seq<char>, i: int) -> Seq<char>
    recommends
        def_body_matches(t, i),
{
    t.subrange(def_sep(t, i) + 2, def_line_end(t, i))
}

/// The position just past a definition body at `i` (past its newline).
pub open spec fn def_end(t: Seq<char>, i: int) -> int
    recommends
        def_body_matches(t, i),
{
    def_line_end(t, i) + 1
}

/// A definition match begins at scan position `i`: either a definition body,
/// or a newline directly followed by one (the newline is then part of the
/// match, so removal leaves no blank line behind).
pub open spec fn def_at(t: Seq<char>, i: int) -> bool {
    if 0 <= i < t.len() && t[i] == '\n' {
        def_body_matches(t, i + 1)
    } else {
        def_body_matches(t, i)
    }
}

/// Where the body of a definition match at `i` begins.
pub open spec fn def_body_pos(t: Seq<char>, i: int) -> int
    recommends
        def_at(t, i),
{
    if 0 <= i < t.len() && t[i] == '\n' {
        i + 1
    } else {
        i
    }
}

/// Every definition the scan finds from position `i` on, in scan order.
pub open spec fn defs_from(t: Seq<char>, i: int) -> Seq<LinkDef>
    decreases t.len() - i,
{
    if i < 0 || i >= t.len() {
        Seq::empty()
    } else if def_at(t, i) {
        let p = def_body_pos(t, i);
        proof {
            lemma_find_from(t, p + 4, '\n');
        }
        seq![LinkDef { name: def_name(t, p), target: def_target(t, p) }] + defs_from(
            t,
            def_end(t, p),
        )
    } else {
        defs_from(t, i + 1)
    }
}

/// The text from position `i` on with every definition match removed.
pub open spec fn strip_from(t: Seq<char>, i: int) -> Seq<char>
    decreases t.len() - i,
{
    if i < 0 || i >= t.len() {
        Seq::empty()
    } else if def_at(t, i) {
        let p = def_body_pos(t, i);
        proof {
            lemma_find_from(t, p + 4, '\n');
        }
        strip_from(t, def_end(t, p))
    } else {
        seq![t[i]] + strip_from(t, i + 1)
    }
}

/// The target the name maps to: that of its last definition, if any.
pub open spec fn lookup_target(defs: Seq<LinkDef>, name: Seq<char>) -> Option<Seq<char>>
    decreases defs.len(),
{
    if defs.len() == 0 {
        None
    } else if defs.last().name == name {
        Some(defs.last().target)
    } else {
        lookup_target(defs.drop_last(), name)
    }
}

/// The `href` a reference resolves to: the defined target, or empty when the
/// name is undefined.
pub open spec fn href_of(defs: Seq<LinkDef>, name: Seq<char>) -> Seq<char> {
    match lookup_target(defs, name) {
        Some(target) => target,
        None => Seq::empty(),
    }
}

/// The closing `` `_ `` of a reference opened at `i`: the last such pair on
/// the line (the name is maximal), or `-1` when the line holds none.
pub open spec fn ref_close(u: Seq<char>, i: int) -> int {
    rfind_pair(u, i + 1, find_from(u, i + 1, '\n'), '`', '_')
}

/// A reference match begins at `i`.
pub open spec fn ref_at(u: Seq<char>, i: int) -> bool {
    &&& 0 <= i < u.len()
    &&& u[i] == '`'
    &&& ref_close(u, i) >= 0
}

pub open spec fn ref_name(u: Seq<char>, i: int) -> Seq<char>
    recommends
        ref_at(u, i),
{
    u.subrange(i + 1, ref_close(u, i))
}

/// The position just past a reference match at `i`.
pub open spec fn ref_end(u: Seq<char>, i: int) -> int
    recommends
        ref_at(u, i),
{
    ref_close(u, i) + 2
}

/// The anchor tag a resolved reference is rewritten into.
pub open spec fn anchor_html(name: Seq<char>, href: Seq<char>) -> Seq<char> {
    "<a class=\"link\" href=\""@ + href + "\">"@ + name + "</a>"@
}

/// The text from position `i` on with every reference match replaced by its
/// anchor tag.
pub open spec fn subst_from(u: Seq<char>, defs: Seq<LinkDef>, i: int) -> Seq<char>
    decreases u.len() - i,
{
    if i < 0 || i >= u.len() {
        Seq::empty()
    } else if ref_at(u, i) {
        proof {
            lemma_find_from(u, i + 1, '\n');
            lemma_rfind_pair(u, i + 1, find_from(u, i + 1, '\n'), '`', '_');
        }
        anchor_html(ref_name(u, i), href_of(defs, ref_name(u, i))) + subst_from(
            u,
            defs,
            ref_end(u, i),
        )
    } else {
        seq![u[i]] + subst_from(u, defs, i + 1)
    }
}

/// The names of the references the substitution pass resolves from position
/// `i` on, in scan order.
pub open spec fn ref_names_from(u: Seq<char>, i: int) -> Seq<Seq<char>>
    decreases u.len() - i,
{
    if i < 0 || i >= u.len() {
        Seq::empty()
    } else if ref_at(u, i) {
        proof {
            lemma_find_from(u, i + 1, '\n');
            lemma_rfind_pair(u, i + 1, find_from(u, i + 1, '\n'), '`', '_');
        }
        seq![ref_name(u, i)] + ref_names_from(u, ref_end(u, i))
    } else {
        ref_names_from(u, i + 1)
    }
}

/// What link resolution returns: definitions collected and removed first,
/// references substituted second.
pub open spec fn resolve_links_spec(t: Seq<char>) -> Seq<char> {
    subst_from(strip_from(t, 0), defs_from(t, 0), 0)
}

/// The definitions collected into a vector, as scanned values.
pub open spec fn defs_view(v: Seq<(Vec<char>, Vec<char>)>) -> Seq<LinkDef> {
    v.map_values(|p: (Vec<char>, Vec<char>)| LinkDef { name: p.0@, target: p.1@ })
}

/// Matches a definition body at `i`; on success returns the bounds of the
/// name, the bounds of the target, and the match end.
fn def_body_match_exec(t: &Vec<char>, i: usize) -> (r: Option<(usize, usize, usize, usize, usize)>)
    requires
        i <= t@.len(),
    ensures
        r is None ==> !def_body_matches(t@, i as int),
        r matches Some(m) ==> {
            &&& def_body_matches(t@, i as int)
            &&& m.0 <= m.1 <= t@.len()
            &&& m.2 <= m.3 <= t@.len()
            &&& t@.subrange(m.0 as int, m.1 as int) == def_name(t@, i as int)
            &&& t@.subrange(m.2 as int, m.3 as int) == def_target(t@, i as int)
            &&& m.4 as int == def_end(t@, i as int)
            &&& i < m.4 <= t@.len()
        },
{
    if t.len() < 4 || i > t.len() - 4 {
        return None;
    }
    if !(t[i] == '.' && t[i + 1] == '.' && t[i + 2] == ' ' && t[i + 3] == '_') {
        return None;
    }
    let k = find_from_exec(t, i + 4, '\n');
    if k == t.len() {
        return None;
    }
    proof {
        lemma_find_from(t@, i + 4, '\n');
    }
    match rfind_pair_exec(t, i + 4, k, ':', ' ') {
        None => None,
        Some(m) => {
            proof {
                lemma_rfind_pair(t@, i + 4, k as int, ':', ' ');
            }
            Some((i + 4, m, m + 2, k, k + 1))
        },
    }
}

/// Matches a definition (with its optional leading newline) at scan position
/// `i`.
fn def_match_exec(t: &Vec<char>, i: usize) -> (r: Option<(usize, usize, usize, usize, usize)>)
    requires
        i < t@.len(),
    ensures
        r is None ==> !def_at(t@, i as int),
        r matches Some(m) ==> {
            &&& def_at(t@, i as int)
            &&& m.0 <= m.1 <= t@.len()
            &&& m.2 <= m.3 <= t@.len()
            &&& t@.subrange(m.0 as int, m.1 as int) == def_name(t@, def_body_pos(t@, i as int))
            &&& t@.subrange(m.2 as int, m.3 as int) == def_target(t@, def_body_pos(t@, i as int))
            &&& m.4 as int == def_end(t@, def_body_pos(t@, i as int))
            &&& i < m.4 <= t@.len()
        },
{
    let n = t.len();
    assert(i < n);
    if t[i] == '\n' {
        def_body_match_exec(t, i + 1)
    } else {
        def_body_match_exec(t, i)
    }
}

/// Matches a reference at `i`; on success returns the bounds of the name and
/// the match end.
fn ref_match_exec(u: &Vec<char>, i: usize) -> (r: Option<(usize, usize, usize)>)
    requires
        i < u@.len(),
    ensures
        r is None ==> !ref_at(u@, i as int),
        r matches Some(m) ==> {
            &&& ref_at(u@, i as int)
            &&& m.0 <= m.1 <= u@.len()
            &&& u@.subrange(m.0 as int, m.1 as int) == ref_name(u@, i as int)
            &&& m.2 as int == ref_end(u@, i as int)
            &&& i < m.2 <= u@.len()
        },
{
    let n = u.len();
    assert(i < n);
    if u[i] != '`' {
        return None;
    }
    let k = find_from_exec(u, i + 1, '\n');
    proof {
        lemma_find_from(u@, i + 1, '\n');
    }
    match rfind_pair_exec(u, i + 1, k, '`', '_') {
        None => None,
        Some(m) => {
            proof {
                lemma_rfind_pair(u@, i + 1, k as int, '`', '_');
            }
            Some((i + 1, m, m + 2))
        },
    }
}

/// Looks a name up in the collected definitions; the last definition of the
/// name wins.
fn lookup_exec(defs: &Vec<(Vec<char>, Vec<char>)>, name: &Vec<char>) -> (r: Option<Vec<char>>)
    ensures
        r is None ==> lookup_target(defs_view(defs@), name@) is None,
        r matches Some(v) ==> lookup_target(defs_view(defs@), name@) == Some(v@),
{
    let ghost dv = defs_view(defs@);
    let mut k = defs.len();
    proof {
        assert(dv.take(defs@.len() as int) =~= dv);
    }
    while k > 0
        invariant
            k <= defs@.len(),
            dv == defs_view(defs@),
            lookup_target(dv, name@) == lookup_target(dv.take(k as int), name@),
        decreases k,
    {
        k = k - 1;
        proof {
            assert(dv[k as int] == (LinkDef { name: defs@[k as int].0@, target: defs@[k as int].1@ }));
            assert(dv.take(k + 1).last() == dv[k as int]);
            assert(dv.take(k + 1).drop_last() =~= dv.take(k as int));
        }
        if chars_eq(&defs[k].0, name) {
            let target = copy_range(&defs[k].1, 0, defs[k].1.len());
            proof {
                assert(target@ =~= defs@[k as int].1@);
            }
            return Some(target);
        }
    }
    proof {
        assert(dv.take(0) =~= Seq::<LinkDef>::empty());
    }
    None
}

/// Renders the named link references of `string` as HTML anchors.
///
/// Every definition line is collected (last definition of a name wins) and
/// removed; every reference is then replaced by
/// `<a class="link" href="TARGET">NAME</a>`, the target empty when the name
/// is undefined. Total: no input makes it fail.
pub fn parse_links(string: &str) -> (r: Result<String, RSTError>)
    ensures
        r matches Ok(s) && s@ == resolve_links_spec(string@),
{
    let t = str_to_chars(string);
    let mut defs: Vec<(Vec<char>, Vec<char>)> = Vec::new();
    let mut stripped: Vec<char> = Vec::new();
    let mut i: usize = 0;
    while i < t.len()
        invariant
            i <= t@.len(),
            defs_view(defs@) + defs_from(t@, i as int) == defs_from(t@, 0),
            stripped@ + strip_from(t@, i as int) == strip_from(t@, 0),
        decreases t@.len() - i,
    {
        let ghost defs0 = defs_view(defs@);
        let ghost stripped0 = stripped@;
        match def_match_exec(&t, i) {
            Some((name_lo, name_hi, tgt_lo, tgt_hi, end)) => {
                let name = copy_range(&t, name_lo, name_hi);
                let target = copy_range(&t, tgt_lo, tgt_hi);
                let ghost p = def_body_pos(t@, i as int);
                let ghost d = LinkDef { name: def_name(t@, p), target: def_target(t@, p) };
                proof {
                    assert(defs_from(t@, i as int) == seq![d] + defs_from(t@, def_end(t@, p)));
                    assert(strip_from(t@, i as int) == strip_from(t@, def_end(t@, p)));
                }
                defs.push((name, target));
                proof {
                    assert(defs_view(defs@) =~= defs0.push(d));
                    assert(defs0.push(d) + defs_from(t@, end as int) =~= defs0 + (seq![d]
                        + defs_from(t@, end as int)));
                }
                i = end;
            },
            None => {
                proof {
                    assert(strip_from(t@, i as int) == seq![t@[i as int]] + strip_from(
                        t@,
                        i + 1,
                    ));
                    assert(defs_from(t@, i as int) == defs_from(t@, i + 1));
                }
                stripped.push(t[i]);
                proof {
                    assert(stripped@ =~= stripped0.push(t@[i as int]));
                    assert(stripped0.push(t@[i as int]) + strip_from(t@, i + 1) =~= stripped0 + (
                    seq![t@[i as int]] + strip_from(t@, i + 1)));
                }
                i = i + 1;
            },
        }
    }
    proof {
        assert(defs_from(t@, t@.len() as int) == Seq::<LinkDef>::empty());
        assert(strip_from(t@, t@.len() as int) == Seq::<char>::empty());
        assert(defs_view(defs@) =~= defs_from(t@, 0));
        assert(stripped@ =~= strip_from(t@, 0));
    }
    let u = stripped;
    let ghost udefs = defs_from(t@, 0);
    let mut out: Vec<char> = Vec::new();
    let mut j: usize = 0;
    while j < u.len()
        invariant
            j <= u@.len(),
            defs_view(defs@) == udefs,
            out@ + subst_from(u@, udefs, j as int) == subst_from(u@, udefs, 0),
        decreases u@.len() - j,
    {
        let ghost out0 = out@;
        match ref_match_exec(&u, j) {
            Some((name_lo, name_hi, end)) => {
                let ghost nm = ref_name(u@, j as int);
                let name = copy_range(&u, name_lo, name_hi);
                let href = lookup_exec(&defs, &name);
                push_str_chars(&mut out, "<a class=\"link\" href=\"");
                if let Some(h) = &href {
                    append_chars(&mut out, h);
                }
                push_str_chars(&mut out, "\">");
                append_chars(&mut out, &name);
                push_str_chars(&mut out, "</a>");
                proof {
                    assert(subst_from(u@, udefs, j as int) == anchor_html(nm, href_of(udefs, nm))
                        + subst_from(u@, udefs, end as int));
                    assert(out@ =~= out0 + anchor_html(nm, href_of(udefs, nm)));
                    assert(out0 + anchor_html(nm, href_of(udefs, nm)) + subst_from(
                        u@,
                        udefs,
                        end as int,
                    ) =~= out0 + (anchor_html(nm, href_of(udefs, nm)) + subst_from(
                        u@,
                        udefs,
                        end as int,
                    )));
                }
                j = end;
            },
            None => {
                proof {
                    assert(subst_from(u@, udefs, j as int) == seq![u@[j as int]] + subst_from(
                        u@,
                        udefs,
                        j + 1,
                    ));
                }
                out.push(u[j]);
                proof {
                    assert(out@ =~= out0.push(u@[j as int]));
                    assert(out0.push(u@[j as int]) + subst_from(u@, udefs, j + 1) =~= out0 + (
                    seq![u@[j as int]] + subst_from(u@, udefs, j + 1)));
                }
                j = j + 1;
            },
        }
    }
    proof {
        assert(subst_from(u@, udefs, u@.len() as int) == Seq::<char>::empty());
        assert(out@ =~= subst_from(u@, udefs, 0));
    }
    Ok(chars_to_string(&out))
}

/// With no definition match anywhere, stripping keeps the text whole.
proof fn lemma_strip_id(t: Seq<char>, i: int)
    requires
        0 <= i <= t.len(),
        forall|j: int| !def_at(t, j),
    ensures
        strip_from(t, i) == t.subrange(i, t.len() as int),
    decreases t.len() - i,
{
    if i >= t.len() {
        assert(t.subrange(i, t.len() as int) =~= Seq::<char>::empty());
    } else {
        lemma_strip_id(t, i + 1);
        assert(strip_from(t, i) == seq![t[i]] + strip_from(t, i + 1));
        assert(seq![t[i]] + t.subrange(i + 1, t.len() as int) =~= t.subrange(i, t.len() as int));
    }
}

/// With no reference match anywhere, substitution keeps the text whole.
proof fn lemma_subst_id(u: Seq<char>, defs: Seq<LinkDef>, i: int)
    requires
        0 <= i <= u.len(),
        forall|j: int| !ref_at(u, j),
    ensures
        subst_from(u, defs, i) == u.subrange(i, u.len() as int),
    decreases u.len() - i,
{
    if i >= u.len() {
        assert(u.subrange(i, u.len() as int) =~= Seq::<char>::empty());
    } else {
        lemma_subst_id(u, defs, i + 1);
        assert(subst_from(u, defs, i) == seq![u[i]] + subst_from(u, defs, i + 1));
        assert(seq![u[i]] + u.subrange(i + 1, u.len() as int) =~= u.subrange(i, u.len() as int));
    }
}

/// On input with no definition match and no reference match anywhere, link
/// resolution returns its input unchanged.
pub proof fn lemma_links_no_op(t: Seq<char>)
    requires
        forall|i: int| !def_at(t, i),
        forall|i: int| !ref_at(t, i),
    ensures
        resolve_links_spec(t) == t,
{
    lemma_strip_id(t, 0);
    assert(strip_from(t, 0) =~= t);
    lemma_subst_id(t, defs_from(t, 0), 0);
    assert(subst_from(t, defs_from(t, 0), 0) =~= t);
}

/// Every reference the substitution pass resolves yields its anchor tag as a
/// run of the result.
proof fn lemma_subst_resolves(u: Seq<char>, defs: Seq<LinkDef>, i: int, x: Seq<char>)
    requires
        0 <= i,
        ref_names_from(u, i).contains(x),
    ensures
        has_substring(subst_from(u, defs, i), anchor_html(x, href_of(defs, x))),
    decreases u.len() - i,
{
    let a = anchor_html(x, href_of(defs, x));
    if i >= u.len() {
        assert(false);
    } else if ref_at(u, i) {
        lemma_find_from(u, i + 1, '\n');
        lemma_rfind_pair(u, i + 1, find_from(u, i + 1, '\n'), '`', '_');
        let nm = ref_name(u, i);
        let e = ref_end(u, i);
        let rest = subst_from(u, defs, e);
        assert(subst_from(u, defs, i) == anchor_html(nm, href_of(defs, nm)) + rest);
        assert(ref_names_from(u, i) == seq![nm] + ref_names_from(u, e));
        if nm == x {
            assert((a + rest).subrange(0, a.len() as int) =~= a);
            lemma_has_substring_at(a + rest, a, 0);
        } else {
            let names = ref_names_from(u, i);
            let k = choose|k: int| 0 <= k < names.len() && names[k] == x;
            assert(ref_names_from(u, e)[k - 1] == x);
            assert(ref_names_from(u, e).contains(x));
            lemma_subst_resolves(u, defs, e, x);
            lemma_has_substring_extend_left(anchor_html(nm, href_of(defs, nm)), rest, a);
        }
    } else {
        assert(ref_names_from(u, i) == ref_names_from(u, i + 1));
        lemma_subst_resolves(u, defs, i + 1, x);
        lemma_has_substring_extend_left(seq![u[i]], subst_from(u, defs, i + 1), a);
    }
}

/// A reference to a defined name `x` comes out as
/// `<a class="link" href="TARGET">x</a>`, where `TARGET` is the target of the
/// last definition of `x` in the document.
pub proof fn lemma_defined_reference(t: Seq<char>, x: Seq<char>, y: Seq<char>)
    requires
        lookup_target(defs_from(t, 0), x) == Some(y),
        ref_names_from(strip_from(t, 0), 0).contains(x),
    ensures
        has_substring(resolve_links_spec(t), anchor_html(x, y)),
{
    lemma_subst_resolves(strip_from(t, 0), defs_from(t, 0), 0, x);
}

/// A reference to an undefined name `x` comes out as
/// `<a class="link" href="">x</a>`: it degrades to an empty target instead of
/// failing.
pub proof fn lemma_undefined_reference(t: Seq<char>, x: Seq<char>)
    requires
        lookup_target(defs_from(t, 0), x) is None,
        ref_names_from(strip_from(t, 0), 0).contains(x),
    ensures
        has_substring(resolve_links_spec(t), anchor_html(x, Seq::empty())),
{
    lemma_subst_resolves(strip_from(t, 0), defs_from(t, 0), 0, x);
}

/// A name that is defined at all resolves to some target.
proof fn lemma_contains_lookup(defs: Seq<LinkDef>, x: Seq<char>)
    requires
        exists|k: int| 0 <= k < defs.len() && defs[k].name == x,
    ensures
        lookup_target(defs, x) is Some,
    decreases defs.len(),
{
    if defs.last().name != x {
        let k = choose|k: int| 0 <= k < defs.len() && defs[k].name == x;
        assert(defs.drop_last()[k] == defs[k]);
        lemma_contains_lookup(defs.drop_last(), x);
    }
}

/// The scan, from any position at or before a definition's leading newline,
/// collects that definition: no earlier match can jump over it.
proof fn lemma_scan_collects(t: Seq<char>, i: int, p: int)
    requires
        0 <= i <= p < t.len(),
        t[p] == '\n',
        def_body_matches(t, p + 1),
    ensures
        defs_from(t, i).contains(
            LinkDef { name: def_name(t, p + 1), target: def_target(t, p + 1) },
        ),
    decreases p - i,
{
    let d = LinkDef { name: def_name(t, p + 1), target: def_target(t, p + 1) };
    if i == p {
        assert(def_at(t, p));
        assert(def_body_pos(t, p) == p + 1);
        assert(defs_from(t, i)[0] == d);
        assert(defs_from(t, i).contains(d));
    } else if def_at(t, i) {
        let bp = def_body_pos(t, i);
        // The four prefix characters are not newlines, so the newline at `p`
        // lies past them, and the match's line ends at or before `p`.
        assert(bp + 4 <= p);
        let le = def_line_end(t, bp);
        lemma_find_from(t, bp + 4, '\n');
        assert(le <= p);
        let e = def_end(t, bp);
        assert(defs_from(t, i) == seq![
            LinkDef { name: def_name(t, bp), target: def_target(t, bp) },
        ] + defs_from(t, e));
        if e == p + 1 {
            assert(t[p + 1] == '.');
            assert(def_at(t, p + 1));
            assert(def_body_pos(t, p + 1) == p + 1);
            assert(defs_from(t, p + 1)[0] == d);
            assert(defs_from(t, i)[1] == d);
            assert(defs_from(t, i).contains(d));
        } else {
            lemma_scan_collects(t, e, p);
            let j = choose|j: int| 0 <= j < defs_from(t, e).len() && defs_from(t, e)[j] == d;
            assert(defs_from(t, i)[j + 1] == d);
            assert(defs_from(t, i).contains(d));
        }
    } else {
        lemma_scan_collects(t, i + 1, p);
    }
}

/// A definition line written anywhere in a document is collected: a document
/// of the form `PRE \n .. _x: y \n POST` defines `x` (provided the name and
/// the target stay on their line, and the target holds no `: ` that would
/// shift the separator), and a reference to `x` therefore resolves to some
/// target — that of the document's last definition of `x`.
pub proof fn lemma_written_definition_collected(
    pre: Seq<char>,
    x: Seq<char>,
    y: Seq<char>,
    post: Seq<char>,
)
    requires
        forall|j: int| 0 <= j < x.len() ==> x[j] != '\n',
        forall|j: int| 0 <= j < y.len() ==> y[j] != '\n',
        forall|j: int| 0 <= j < y.len() - 1 ==> !(#[trigger] y[j] == ':' && y[j + 1] == ' '),
    ensures
        ({
            let t = pre + seq!['\n'] + ".. _"@ + x + ": "@ + y + seq!['\n'] + post;
            defs_from(t, 0).contains(LinkDef { name: x, target: y }) && lookup_target(
                defs_from(t, 0),
                x,
            ) is Some
        }),
{
    reveal_strlit(".. _");
    reveal_strlit(": ");
    let t = pre + seq!['\n'] + ".. _"@ + x + ": "@ + y + seq!['\n'] + post;
    let p = pre.len() as int;
    let xl = x.len() as int;
    let yl = y.len() as int;
    let sep = p + 5 + xl;
    let nl = p + 7 + xl + yl;
    assert(t[p] == '\n');
    assert(t[p + 1] == '.' && t[p + 2] == '.' && t[p + 3] == ' ' && t[p + 4] == '_');
    assert(forall|j: int| p + 5 <= j < sep ==> #[trigger] t[j] == x[j - (p + 5)]);
    assert(t[sep] == ':' && t[sep + 1] == ' ');
    assert(forall|j: int| sep + 2 <= j < nl ==> #[trigger] t[j] == y[j - (sep + 2)]);
    assert(t[nl] == '\n');
    assert(is_def_prefix(t, p + 1));
    lemma_find_from(t, p + 5, '\n');
    let le = def_line_end(t, p + 1);
    assert(le <= nl);
    assert(forall|j: int| p + 5 <= j < nl ==> #[trigger] t[j] != '\n');
    assert(le == nl);
    lemma_rfind_pair(t, p + 5, nl, ':', ' ');
    let m = def_sep(t, p + 1);
    assert(m >= sep);
    assert(forall|j: int| sep + 2 <= j && j + 2 <= nl ==> !(#[trigger] t[j] == ':' && t[j + 1] == ' '));
    assert(m == sep);
    assert(def_body_matches(t, p + 1));
    assert(def_name(t, p + 1) =~= x);
    assert(def_target(t, p + 1) =~= y);
    lemma_scan_collects(t, 0, p);
    lemma_contains_lookup(defs_from(t, 0), x);
}

} // verus!
