use vstd::prelude::*;
use crate::matcher::{names_view, row_wf, rows_view, rows_wf, whole_span};
use crate::tabulator::cell_model;
use crate::text::{range_eq, sub_bytes};

verus! {

/// A byte that may appear in a back-reference token: an ASCII letter,
/// digit, or underscore.
pub open spec fn ident_byte(b: u8) -> bool {
    (48 <= b <= 57) || (65 <= b <= 90) || (97 <= b <= 122) || b == 95
}

fn is_ident_byte(b: u8) -> (r: bool)
    ensures
        r == ident_byte(b),
{
    (b >= 48 && b <= 57) || (b >= 65 && b <= 90) || (b >= 97 && b <= 122) || b == 95
}

/// The first index at or after `i` whose byte is not a token byte, or
/// the length when the token run reaches the end.
pub open spec fn ident_end(t: Seq<u8>, i: int) -> int
    decreases t.len() - i,
{
    if i >= t.len() {
        t.len() as int
    } else if !ident_byte(t[i]) {
        i
    } else {
        ident_end(t, i + 1)
    }
}

proof fn lemma_ident_end_ge(t: Seq<u8>, i: int)
    ensures
        i <= t.len() ==> i <= ident_end(t, i) <= t.len(),
        i > t.len() ==> ident_end(t, i) == t.len(),
    decreases t.len() - i,
{
    if i < t.len() && ident_byte(t[i]) {
        lemma_ident_end_ge(t, i + 1);
    }
}

/// Every byte of `[a, b)` is an ASCII decimal digit.
pub open spec fn all_digits(t: Seq<u8>, a: int, b: int) -> bool {
    forall|k: int| a <= k < b ==> 48 <= #[trigger] t[k] <= 57
}

/// The decimal value of the digit run `[a, b)`.
pub open spec fn digits_val(t: Seq<u8>, a: int, b: int) -> int
    decreases b - a,
{
    if b <= a {
        0
    } else {
        digits_val(t, a, b - 1) * 10 + (t[b - 1] - 48)
    }
}

proof fn lemma_digits_val_nonneg(t: Seq<u8>, a: int, b: int)
    requires
        all_digits(t, a, b),
        a <= b,
    ensures
        digits_val(t, a, b) >= 0,
    decreases b - a,
{
    if b > a {
        lemma_digits_val_nonneg(t, a, b - 1);
    }
}

/// The index of the first group whose name is `tok`, searching from `j`.
pub open spec fn name_index(names: Seq<Option<Seq<u8>>>, tok: Seq<u8>, j: int) -> Option<int>
    decreases names.len() - j,
{
    if j < 0 || j >= names.len() {
        None
    } else if names[j] == Some(tok) {
        Some(j)
    } else {
        name_index(names, tok, j + 1)
    }
}

/// The group a token `[a, b)` of the template refers to: a digit run is
/// a positional index (out of range resolves to no group); anything else
/// names a group (an unknown name resolves to no group).
pub open spec fn token_ref(t: Seq<u8>, a: int, b: int, names: Seq<Option<Seq<u8>>>) -> Option<int> {
    if all_digits(t, a, b) {
        if digits_val(t, a, b) < names.len() {
            Some(digits_val(t, a, b))
        } else {
            None
        }
    } else {
        name_index(names, t.subrange(a, b), 0)
    }
}

/// What a resolved token contributes: the group's cell text, or nothing.
pub open spec fn token_text(
    body: Seq<u8>,
    row: Seq<Option<(usize, usize)>>,
    r: Option<int>,
) -> Seq<u8> {
    match r {
        Some(g) => cell_model(body, row, g),
        None => Seq::empty(),
    }
}

/// The template from index `k` on, with every back-reference token
/// (`$` followed by a non-empty run of token bytes) replaced by the
/// referenced group's text for this row.  A `$` followed by no token
/// byte is literal text.
pub open spec fn expand_from(
    tmpl: Seq<u8>,
    k: int,
    body: Seq<u8>,
    row: Seq<Option<(usize, usize)>>,
    names: Seq<Option<Seq<u8>>>,
) -> Seq<u8>
    decreases tmpl.len() - k,
    via expand_from_decreases
{
    if k < 0 || k >= tmpl.len() {
        Seq::empty()
    } else if tmpl[k] != 36u8 {
        seq![tmpl[k]] + expand_from(tmpl, k + 1, body, row, names)
    } else {
        let j = ident_end(tmpl, k + 1);
        if j == k + 1 {
            seq![36u8] + expand_from(tmpl, k + 1, body, row, names)
        } else {
            token_text(body, row, token_ref(tmpl, k + 1, j, names)) + expand_from(
                tmpl,
                j,
                body,
                row,
                names,
            )
        }
    }
}

#[via_fn]
proof fn expand_from_decreases(
    tmpl: Seq<u8>,
    k: int,
    body: Seq<u8>,
    row: Seq<Option<(usize, usize)>>,
    names: Seq<Option<Seq<u8>>>,
) {
    lemma_ident_end_ge(tmpl, k + 1);
}

/// The whole template expanded for one row.
pub open spec fn expand_model(
    tmpl: Seq<u8>,
    body: Seq<u8>,
    row: Seq<Option<(usize, usize)>>,
    names: Seq<Option<Seq<u8>>>,
) -> Seq<u8> {
    expand_from(tmpl, 0, body, row, names)
}

/// The body from byte `pos` on, with every match from index `i` on
/// replaced by the expanded template; non-matched regions pass through
/// unchanged.
pub open spec fn render_from(
    body: Seq<u8>,
    rows: Seq<Seq<Option<(usize, usize)>>>,
    names: Seq<Option<Seq<u8>>>,
    tmpl: Seq<u8>,
    i: int,
    pos: int,
) -> Seq<u8>
    decreases rows.len() - i,
{
    if i < 0 || i >= rows.len() {
        body.subrange(pos, body.len() as int)
    } else {
        let sp = whole_span(rows[i]);
        body.subrange(pos, sp.0 as int) + expand_model(tmpl, body, rows[i], names) + render_from(
            body,
            rows,
            names,
            tmpl,
            i + 1,
            sp.1 as int,
        )
    }
}

/// The substitution preview: every match replaced by the expanded
/// template, everything else unchanged.
pub open spec fn render_model(
    body: Seq<u8>,
    rows: Seq<Seq<Option<(usize, usize)>>>,
    names: Seq<Option<Seq<u8>>>,
    tmpl: Seq<u8>,
) -> Seq<u8> {
    render_from(body, rows, names, tmpl, 0, 0)
}

/// Substitution idempotence on an empty match set: with no matches the
/// rendered output is the body, unchanged, whatever the template.
pub proof fn lemma_render_no_matches(
    body: Seq<u8>,
    names: Seq<Option<Seq<u8>>>,
    tmpl: Seq<u8>,
)
    ensures
        render_model(body, Seq::empty(), names, tmpl) == body,
{
    assert(body.subrange(0, body.len() as int) =~= body);
}

/// Appends the cell text of group `g` (nothing when the group did not
/// participate or does not exist).
fn push_cell(
    body: &Vec<u8>,
    row: &Vec<Option<(usize, usize)>>,
    g: usize,
    out: &mut Vec<u8>,
)
    requires
        row_wf(row@, body@.len()),
    ensures
        final(out)@ == old(out)@ + cell_model(body@, row@, g as int),
{
    if g < row.len() {
        match row[g] {
            Some(s) => {
                assert(row@[g as int] matches Some(sp) && sp.0 <= sp.1 <= body@.len());
                let mut c = sub_bytes(body, s.0, s.1);
                out.append(&mut c);
            },
            None => {
                assert(old(out)@ + cell_model(body@, row@, g as int) =~= old(out)@);
            },
        }
    } else {
        assert(old(out)@ + cell_model(body@, row@, g as int) =~= old(out)@);
    }
}

/// The first group whose name equals the template bytes `[a, b)`.
fn lookup_name(tmpl: &Vec<u8>, a: usize, b: usize, names: &Vec<Option<Vec<u8>>>) -> (r: Option<
    usize,
>)
    requires
        a <= b <= tmpl@.len(),
    ensures
        r matches Some(g) ==> name_index(
            names_view(names@),
            tmpl@.subrange(a as int, b as int),
            0,
        ) == Some(g as int),
        r is None ==> name_index(names_view(names@), tmpl@.subrange(a as int, b as int), 0)
            is None,
{
    let ghost nv = names_view(names@);
    let ghost tok = tmpl@.subrange(a as int, b as int);
    let mut g: usize = 0;
    while g < names.len()
        invariant
            a <= b <= tmpl@.len(),
            g <= names@.len(),
            nv == names_view(names@),
            tok == tmpl@.subrange(a as int, b as int),
            name_index(nv, tok, 0) == name_index(nv, tok, g as int),
        decreases names@.len() - g,
    {
        assert(nv[g as int] == match names@[g as int] {
            Some(v) => Some(v@),
            None => None::<Seq<u8>>,
        });
        match &names[g] {
            Some(nm) => {
                if range_eq(tmpl, a, b, nm) {
                    assert(nv[g as int] == Some(tok));
                    assert(name_index(nv, tok, g as int) == Some(g as int));
                    return Some(g);
                }
                assert(nv[g as int] != Some(tok));
            },
            None => {
                assert(nv[g as int] is None);
            },
        }
        g = g + 1;
    }
    None
}

/// Appends the expanded template for one row: literal bytes pass
/// through, `$0`/`$N` insert the Nth group's text, `$name` inserts the
/// named group's text, and a `$` that no token byte follows stays
/// literal.
fn expand_push(
    tmpl: &Vec<u8>,
    body: &Vec<u8>,
    row: &Vec<Option<(usize, usize)>>,
    names: &Vec<Option<Vec<u8>>>,
    out: &mut Vec<u8>,
)
    requires
        row_wf(row@, body@.len()),
    ensures
        final(out)@ == old(out)@ + expand_model(tmpl@, body@, row@, names_view(names@)),
{
    let ghost nv = names_view(names@);
    let mut k: usize = 0;
    while k < tmpl.len()
        invariant
            row_wf(row@, body@.len()),
            nv == names_view(names@),
            k <= tmpl@.len(),
            old(out)@ + expand_model(tmpl@, body@, row@, nv) == out@ + expand_from(
                tmpl@,
                k as int,
                body@,
                row@,
                nv,
            ),
        decreases tmpl@.len() - k,
    {
        let b = tmpl[k];
        if b != 36u8 {
            out.push(b);
            assert(expand_from(tmpl@, k as int, body@, row@, nv) == seq![tmpl@[k as int]]
                + expand_from(tmpl@, k + 1, body@, row@, nv));
            k = k + 1;
        } else {
            proof {
                lemma_ident_end_ge(tmpl@, k + 1);
            }
            let mut j: usize = k + 1;
            while j < tmpl.len() && is_ident_byte(tmpl[j])
                invariant
                    k + 1 <= j <= tmpl@.len(),
                    ident_end(tmpl@, k as int + 1) == ident_end(tmpl@, j as int),
                decreases tmpl@.len() - j,
            {
                j = j + 1;
            }
            assert(ident_end(tmpl@, j as int) == j);
            if j == k + 1 {
                out.push(36u8);
                assert(expand_from(tmpl@, k as int, body@, row@, nv) == seq![36u8] + expand_from(
                    tmpl@,
                    k + 1,
                    body@,
                    row@,
                    nv,
                ));
                k = k + 1;
            } else {
                let ghost a = k as int + 1;
                let l128: u128 = names.len() as u128;
                let mut all_dig: bool = true;
                let mut acc: u128 = 0;
                let mut t: usize = k + 1;
                while t < j
                    invariant
                        k + 1 <= t <= j <= tmpl@.len(),
                        a == k as int + 1,
                        l128 == names@.len(),
                        l128 <= usize::MAX,
                        all_dig == all_digits(tmpl@, a, t as int),
                        all_dig ==> acc == (if digits_val(tmpl@, a, t as int) >= l128 {
                            l128 as int
                        } else {
                            digits_val(tmpl@, a, t as int)
                        }),
                        acc <= l128,
                    decreases j - t,
                {
                    let d = tmpl[t];
                    if d >= 48 && d <= 57 {
                        if all_dig {
                            proof {
                                lemma_digits_val_nonneg(tmpl@, a, t as int);
                            }
                            let dv = (d - 48) as u128;
                            assert(acc * 10 + dv <= 0xFFFF_FFFF_FFFF_FFFFu128 * 10 + 9);
                            let next = acc * 10 + dv;
                            acc = if next > l128 {
                                l128
                            } else {
                                next
                            };
                            assert(digits_val(tmpl@, a, t as int + 1) == digits_val(
                                tmpl@,
                                a,
                                t as int,
                            ) * 10 + (tmpl@[t as int] - 48));
                        }
                        assert(all_digits(tmpl@, a, t as int + 1) == all_digits(
                            tmpl@,
                            a,
                            t as int,
                        ));
                    } else {
                        all_dig = false;
                        assert(!all_digits(tmpl@, a, t as int + 1));
                    }
                    t = t + 1;
                }
                if all_dig {
                    proof {
                        lemma_digits_val_nonneg(tmpl@, a, j as int);
                    }
                    if acc < l128 {
                        let g = acc as usize;
                        assert(token_ref(tmpl@, a, j as int, nv) == Some(g as int));
                        push_cell(body, row, g, out);
                    } else {
                        assert(digits_val(tmpl@, a, j as int) >= nv.len());
                        assert(token_ref(tmpl@, a, j as int, nv) is None);
                    }
                } else {
                    match lookup_name(tmpl, k + 1, j, names) {
                        Some(g) => {
                            assert(token_ref(tmpl@, a, j as int, nv) == Some(g as int));
                            push_cell(body, row, g, out);
                        },
                        None => {
                            assert(token_ref(tmpl@, a, j as int, nv) is None);
                        },
                    }
                }
                assert(expand_from(tmpl@, k as int, body@, row@, nv) == token_text(
                    body@,
                    row@,
                    token_ref(tmpl@, a, j as int, nv),
                ) + expand_from(tmpl@, j as int, body@, row@, nv));
                k = j;
            }
        }
    }
    assert(expand_from(tmpl@, k as int, body@, row@, nv) == Seq::<u8>::empty());
}

/// Replaces every match of the row table with the expanded template and
/// passes every non-matched region of the body through unchanged.  With
/// no matches the output is the body itself.
pub fn render(
    body: &Vec<u8>,
    rows: &Vec<Vec<Option<(usize, usize)>>>,
    names: &Vec<Option<Vec<u8>>>,
    template: &Vec<u8>,
) -> (out: Vec<u8>)
    requires
        rows_wf(rows_view(rows@), body@.len()),
    ensures
        out@ == render_model(body@, rows_view(rows@), names_view(names@), template@),
        rows@.len() == 0 ==> out@ == body@,
{
    let ghost rv = rows_view(rows@);
    let ghost nv = names_view(names@);
    let mut out: Vec<u8> = Vec::new();
    let mut pos: usize = 0;
    let mut i: usize = 0;
    while i < rows.len()
        invariant
            rows_wf(rv, body@.len()),
            rv == rows_view(rows@),
            nv == names_view(names@),
            i <= rows@.len(),
            pos <= body@.len(),
            i < rows@.len() ==> pos <= whole_span(rv[i as int]).0,
            render_model(body@, rv, nv, template@) == out@ + render_from(
                body@,
                rv,
                nv,
                template@,
                i as int,
                pos as int,
            ),
        decreases rows@.len() - i,
    {
        let row = &rows[i];
        assert(rv[i as int] == row@);
        assert(row_wf(rv[i as int], body@.len()));
        let (ms, me) = match row[0] {
            Some(s) => s,
            None => {
                proof {
                    assert(false);
                }
                (0usize, 0usize)
            },
        };
        assert((ms, me) == whole_span(rv[i as int]));
        let mut gap = sub_bytes(body, pos, ms);
        out.append(&mut gap);
        expand_push(template, body, row, names, &mut out);
        proof {
            assert(render_from(body@, rv, nv, template@, i as int, pos as int) == body@.subrange(
                pos as int,
                ms as int,
            ) + expand_model(template@, body@, rv[i as int], nv) + render_from(
                body@,
                rv,
                nv,
                template@,
                i + 1,
                me as int,
            ));
            if i + 1 < rv.len() {
                assert(whole_span(rv[i as int]).1 <= whole_span(rv[i as int + 1]).0);
            }
        }
        pos = me;
        i = i + 1;
    }
    let mut tail = sub_bytes(body, pos, body.len());
    out.append(&mut tail);
    proof {
        assert(render_from(body@, rv, nv, template@, i as int, pos as int) == body@.subrange(
            pos as int,
            body@.len() as int,
        ));
        if rows@.len() == 0 {
            assert(body@.subrange(0, body@.len() as int) =~= body@);
        }
    }
    out
}

} // verus!
