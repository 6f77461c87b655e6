//! The template renderer: three layouts over one table of per-field
//! templates, each template carrying a `{value}` placeholder (and, for the
//! name field, a `{symbol}` placeholder).
use vstd::prelude::*;

use crate::color::{resolve, resolve_spec};
use crate::status::{fmt_commit_spec, is_clean_spec, vcs_name_spec, Status, StatusView};
use crate::text::{
    chars_to_string, dec_rep, extend_chars, replace_chars, replace_spec, str_to_chars,
    u32_to_chars,
};

verus! {

/// Available formatting styles.
#[derive(Clone, Copy, Debug, PartialEq, Eq, Structural)]
pub enum OutputStyle {
    Detailed,
    Minimal,
    FormatString,
}

/// The mathematical model of a template table.
pub ghost struct TemplatesView {
    pub prefix: Seq<char>,
    pub suffix: Seq<char>,
    pub separator: Seq<char>,
    pub name: Seq<char>,
    pub branch: Seq<char>,
    pub commit: Seq<char>,
    pub operation: Seq<char>,
    pub behind: Seq<char>,
    pub ahead: Seq<char>,
    pub staged: Seq<char>,
    pub changed: Seq<char>,
    pub conflicts: Seq<char>,
    pub untracked: Seq<char>,
    pub clean: Seq<char>,
}

/// The table of per-field templates, populated with built-in defaults and
/// overridable per key before rendering.
pub struct Templates {
    pub prefix: String,
    pub suffix: String,
    pub separator: String,
    pub name: String,
    pub branch: String,
    pub commit: String,
    pub operation: String,
    pub behind: String,
    pub ahead: String,
    pub staged: String,
    pub changed: String,
    pub conflicts: String,
    pub untracked: String,
    pub clean: String,
}

impl View for Templates {
    type V = TemplatesView;

    open spec fn view(&self) -> TemplatesView {
        TemplatesView {
            prefix: self.prefix@,
            suffix: self.suffix@,
            separator: self.separator@,
            name: self.name@,
            branch: self.branch@,
            commit: self.commit@,
            operation: self.operation@,
            behind: self.behind@,
            ahead: self.ahead@,
            staged: self.staged@,
            changed: self.changed@,
            conflicts: self.conflicts@,
            untracked: self.untracked@,
            clean: self.clean@,
        }
    }
}

/// The built-in default for every field template.
pub open spec fn default_templates() -> TemplatesView {
    TemplatesView {
        prefix: ""@,
        suffix: "{reset}"@,
        separator: "{reset}|"@,
        name: "{symbol}"@,
        branch: "{cyan}{value}{reset}"@,
        commit: "{black_on_green}{value}{reset}"@,
        operation: "{red}{value}{reset}"@,
        behind: "\u{21e3}{value}"@,
        ahead: "\u{21e1}{value}"@,
        staged: "{blue}\u{25cf}{value}"@,
        changed: "{yellow}\u{394}{value}"@,
        conflicts: "{red}\u{203c}{value}"@,
        untracked: "{gray}\u{2026}{value}"@,
        clean: "{green}{bold}\u{2714}"@,
    }
}

impl Templates {
    /// The table holding every built-in default.
    pub fn new() -> (t: Templates)
        ensures
            t@ == default_templates(),
    {
        Templates {
            prefix: String::from_str(""),
            suffix: String::from_str("{reset}"),
            separator: String::from_str("{reset}|"),
            name: String::from_str("{symbol}"),
            branch: String::from_str("{cyan}{value}{reset}"),
            commit: String::from_str("{black_on_green}{value}{reset}"),
            operation: String::from_str("{red}{value}{reset}"),
            behind: String::from_str("\u{21e3}{value}"),
            ahead: String::from_str("\u{21e1}{value}"),
            staged: String::from_str("{blue}\u{25cf}{value}"),
            changed: String::from_str("{yellow}\u{394}{value}"),
            conflicts: String::from_str("{red}\u{203c}{value}"),
            untracked: String::from_str("{gray}\u{2026}{value}"),
            clean: String::from_str("{green}{bold}\u{2714}"),
        }
    }
}

/// The placeholder that every field template substitutes.
pub open spec fn val_pat() -> Seq<char> {
    "{value}"@
}

/// The extra placeholder of the name template.
pub open spec fn sym_pat() -> Seq<char> {
    "{symbol}"@
}

/// A field template with its `{value}` placeholder substituted.
pub open spec fn applied_spec(tmpl: Seq<char>, value: Seq<char>) -> Seq<char> {
    replace_spec(tmpl, val_pat(), value)
}

/// The rendered name field: `{value}` carries the backend's name and
/// `{symbol}` its display symbol.
pub open spec fn name_part(st: StatusView, t: TemplatesView) -> Seq<char> {
    replace_spec(applied_spec(t.name, vcs_name_spec(st.name)), sym_pat(), st.symbol)
}

/// The rendered branch field.
pub open spec fn branch_part(st: StatusView, t: TemplatesView) -> Seq<char> {
    applied_spec(t.branch, st.branch)
}

/// The rendered commit field, the identifier truncated to seven characters.
pub open spec fn commit_part(st: StatusView, t: TemplatesView) -> Seq<char> {
    applied_spec(t.commit, fmt_commit_spec(st.commit, 7))
}

/// The rendered behind counter.
pub open spec fn behind_part(st: StatusView, t: TemplatesView) -> Seq<char> {
    applied_spec(t.behind, dec_rep(st.behind))
}

/// The rendered ahead counter.
pub open spec fn ahead_part(st: StatusView, t: TemplatesView) -> Seq<char> {
    applied_spec(t.ahead, dec_rep(st.ahead))
}

/// The rendered staged counter.
pub open spec fn staged_part(st: StatusView, t: TemplatesView) -> Seq<char> {
    applied_spec(t.staged, dec_rep(st.staged))
}

/// The rendered changed counter.
pub open spec fn changed_part(st: StatusView, t: TemplatesView) -> Seq<char> {
    applied_spec(t.changed, dec_rep(st.changed))
}

/// The rendered conflicts counter.
pub open spec fn conflicts_part(st: StatusView, t: TemplatesView) -> Seq<char> {
    applied_spec(t.conflicts, dec_rep(st.conflicts))
}

/// The rendered untracked counter.
pub open spec fn untracked_part(st: StatusView, t: TemplatesView) -> Seq<char> {
    applied_spec(t.untracked, dec_rep(st.untracked))
}

/// The operations of the detailed layout: a separator before every
/// rendered operation name, in list order.
pub open spec fn ops_render(ops: Seq<Seq<char>>, sep: Seq<char>, tmpl: Seq<char>) -> Seq<char>
    decreases ops.len(),
{
    if ops.len() == 0 {
        Seq::empty()
    } else {
        ops_render(ops.drop_last(), sep, tmpl) + sep + applied_spec(tmpl, ops.last())
    }
}

pub proof fn lemma_ops_render_push(ops: Seq<Seq<char>>, sep: Seq<char>, tmpl: Seq<char>, x: Seq<char>)
    ensures
        ops_render(ops.push(x), sep, tmpl) == ops_render(ops, sep, tmpl) + sep + applied_spec(
            tmpl,
            x,
        ),
{
    assert(ops.push(x).drop_last() =~= ops);
    assert(ops.push(x).last() == x);
}

/// The operations of format-string mode: each rendered operation name in
/// list order, with nothing between.
pub open spec fn ops_concat(ops: Seq<Seq<char>>, tmpl: Seq<char>) -> Seq<char>
    decreases ops.len(),
{
    if ops.len() == 0 {
        Seq::empty()
    } else {
        ops_concat(ops.drop_last(), tmpl) + applied_spec(tmpl, ops.last())
    }
}

pub proof fn lemma_ops_concat_push(ops: Seq<Seq<char>>, tmpl: Seq<char>, x: Seq<char>)
    ensures
        ops_concat(ops.push(x), tmpl) == ops_concat(ops, tmpl) + applied_spec(tmpl, x),
{
    assert(ops.push(x).drop_last() =~= ops);
    assert(ops.push(x).last() == x);
}

/// The detailed layout: prefix, name, branch, divergence counters, one
/// separated entry per operation, a separator, the four working-state
/// counters where positive, the clean indicator where clean, suffix.
pub open spec fn format_full_spec(st: StatusView, t: TemplatesView) -> Seq<char> {
    t.prefix + name_part(st, t) + branch_part(st, t) + (if st.behind > 0 {
        behind_part(st, t)
    } else {
        Seq::empty()
    }) + (if st.ahead > 0 {
        ahead_part(st, t)
    } else {
        Seq::empty()
    }) + ops_render(st.operations, t.separator, t.operation) + t.separator + (if st.staged > 0 {
        staged_part(st, t)
    } else {
        Seq::empty()
    }) + (if st.conflicts > 0 {
        conflicts_part(st, t)
    } else {
        Seq::empty()
    }) + (if st.changed > 0 {
        changed_part(st, t)
    } else {
        Seq::empty()
    }) + (if st.untracked > 0 {
        untracked_part(st, t)
    } else {
        Seq::empty()
    }) + (if is_clean_spec(st) {
        t.clean
    } else {
        Seq::empty()
    }) + t.suffix
}

/// The minimal layout: prefix, branch, a staged marker glyph where staged,
/// a dirty marker glyph where not clean, divergence counters, suffix.
pub open spec fn format_minimal_spec(st: StatusView, t: TemplatesView) -> Seq<char> {
    t.prefix + branch_part(st, t) + (if st.staged > 0 {
        "{bold}{yellow}+{reset}"@
    } else {
        Seq::empty()
    }) + (if !is_clean_spec(st) {
        "{red}*{reset}"@
    } else {
        Seq::empty()
    }) + (if st.behind > 0 {
        behind_part(st, t)
    } else {
        Seq::empty()
    }) + (if st.ahead > 0 {
        ahead_part(st, t)
    } else {
        Seq::empty()
    }) + t.suffix
}

/// What one directive character of a format string emits.
pub open spec fn directive(c: char, st: StatusView, t: TemplatesView) -> Seq<char> {
    if c == 'n' {
        name_part(st, t)
    } else if c == 'b' {
        branch_part(st, t)
    } else if c == 'c' {
        commit_part(st, t)
    } else if c == 'A' {
        if st.ahead > 0 {
            ahead_part(st, t)
        } else {
            Seq::empty()
        }
    } else if c == 'B' {
        if st.behind > 0 {
            behind_part(st, t)
        } else {
            Seq::empty()
        }
    } else if c == 's' {
        if st.staged > 0 {
            staged_part(st, t)
        } else {
            Seq::empty()
        }
    } else if c == 'U' {
        if st.conflicts > 0 {
            conflicts_part(st, t)
        } else {
            Seq::empty()
        }
    } else if c == 'm' {
        if st.changed > 0 {
            changed_part(st, t)
        } else {
            Seq::empty()
        }
    } else if c == 'u' {
        if st.untracked > 0 {
            untracked_part(st, t)
        } else {
            Seq::empty()
        }
    } else if c == 'o' {
        ops_concat(st.operations, t.operation)
    } else {
        seq![c]
    }
}

/// The forward scan of a format string: `%` consumes one directive
/// character, everything else is copied; a trailing lone `%` emits nothing.
pub open spec fn scan_spec(pat: Seq<char>, st: StatusView, t: TemplatesView) -> Seq<char>
    decreases pat.len(),
{
    if pat.len() == 0 {
        Seq::empty()
    } else if pat[0] == '%' {
        if pat.len() == 1 {
            Seq::empty()
        } else {
            directive(pat[1], st, t) + scan_spec(pat.skip(2), st, t)
        }
    } else {
        seq![pat[0]] + scan_spec(pat.skip(1), st, t)
    }
}

/// Format-string mode: the scanned pattern, then the clean indicator where
/// clean, then the suffix, matching the tail of the fixed layouts.
pub open spec fn format_string_spec(pat: Seq<char>, st: StatusView, t: TemplatesView) -> Seq<
    char,
> {
    scan_spec(pat, st, t) + (if is_clean_spec(st) {
        t.clean
    } else {
        Seq::empty()
    }) + t.suffix
}

/// The default pattern of format-string mode.
pub open spec fn default_pattern() -> Seq<char> {
    "%n %b %o"@
}

/// What one layout produces before color resolution.
pub open spec fn styled_spec(
    st: StatusView,
    t: TemplatesView,
    style: OutputStyle,
    fmt: Option<Seq<char>>,
) -> Seq<char> {
    match style {
        OutputStyle::Detailed => format_full_spec(st, t),
        OutputStyle::Minimal => format_minimal_spec(st, t),
        OutputStyle::FormatString => format_string_spec(
            match fmt {
                Some(p) => p,
                None => default_pattern(),
            },
            st,
            t,
        ),
    }
}

/// The final output: the chosen layout, color-resolved.
pub open spec fn get_output_spec(
    st: StatusView,
    t: TemplatesView,
    style: OutputStyle,
    fmt: Option<Seq<char>>,
) -> Seq<char> {
    resolve_spec(styled_spec(st, t, style, fmt))
}

/// Get formatted output depending on OutputStyle, with every color tag
/// resolved to its escape sequence.
pub fn get_output(
    status: &Status,
    style: OutputStyle,
    fmt_string: Option<&str>,
    templates: &Templates,
) -> (r: String)
    ensures
        r@ == get_output_spec(
            status@,
            templates@,
            style,
            match fmt_string {
                Some(p) => Some(p@),
                None => None,
            },
        ),
{
    let styled: String = match style {
        OutputStyle::Detailed => format_full(status, templates),
        OutputStyle::Minimal => format_minimal(status, templates),
        OutputStyle::FormatString => {
            match fmt_string {
                Some(p) => format_from_string(status, templates, p),
                None => format_from_string(status, templates, "%n %b %o"),
            }
        },
    };
    resolve(styled.as_str())
}

fn applied(tmpl: &String, value: &Vec<char>) -> (r: Vec<char>)
    ensures
        r@ == applied_spec(tmpl@, value@),
{
    let t = str_to_chars(tmpl.as_str());
    let p = str_to_chars("{value}");
    replace_chars(&t, &p, value)
}

fn name_applied(status: &Status, templates: &Templates) -> (r: Vec<char>)
    ensures
        r@ == name_part(status@, templates@),
{
    let nm = status.name.name();
    let nmc = str_to_chars(nm.as_str());
    let first = applied(&templates.name, &nmc);
    let symc = str_to_chars(status.symbol.as_str());
    let p = str_to_chars("{symbol}");
    replace_chars(&first, &p, &symc)
}

fn push_ops_rendered(out: &mut Vec<char>, status: &Status, templates: &Templates)
    ensures
        final(out)@ == old(out)@ + ops_render(
            status@.operations,
            templates@.separator,
            templates@.operation,
        ),
{
    let ghost head = old(out)@;
    let ghost ops = status@.operations;
    let sep = str_to_chars(templates.separator.as_str());
    let n = status.operations.len();
    let mut i: usize = 0;
    proof {
        assert(ops.take(0) =~~= Seq::<Seq<char>>::empty());
        assert(head + ops_render(ops.take(0), templates@.separator, templates@.operation) =~= head);
    }
    while i < n
        invariant
            i <= n,
            n == ops.len(),
            ops == status@.operations,
            sep@ == templates@.separator,
            out@ == head + ops_render(ops.take(i as int), templates@.separator, templates@.operation),
        decreases n - i,
    {
        proof {
            assert(ops.take(i + 1 as int) =~= ops.take(i as int).push(ops[i as int]));
            lemma_ops_render_push(
                ops.take(i as int),
                templates@.separator,
                templates@.operation,
                ops[i as int],
            );
            assert(status.operations.deep_view()[i as int] == status.operations@[i as int].deep_view());
            assert(status.operations@[i as int].deep_view() =~= status.operations@[i as int]@);
        }
        extend_chars(out, &sep);
        let opc = str_to_chars(status.operations[i].as_str());
        let piece = applied(&templates.operation, &opc);
        extend_chars(out, &piece);
        i = i + 1;
    }
    proof {
        assert(ops.take(n as int) =~= ops);
    }
}

fn push_ops_concat(out: &mut Vec<char>, status: &Status, templates: &Templates)
    ensures
        final(out)@ == old(out)@ + ops_concat(status@.operations, templates@.operation),
{
    let ghost head = old(out)@;
    let ghost ops = status@.operations;
    let n = status.operations.len();
    let mut i: usize = 0;
    proof {
        assert(ops.take(0) =~~= Seq::<Seq<char>>::empty());
        assert(head + ops_concat(ops.take(0), templates@.operation) =~= head);
    }
    while i < n
        invariant
            i <= n,
            n == ops.len(),
            ops == status@.operations,
            out@ == head + ops_concat(ops.take(i as int), templates@.operation),
        decreases n - i,
    {
        proof {
            assert(ops.take(i + 1 as int) =~= ops.take(i as int).push(ops[i as int]));
            lemma_ops_concat_push(ops.take(i as int), templates@.operation, ops[i as int]);
            assert(status.operations.deep_view()[i as int] == status.operations@[i as int].deep_view());
            assert(status.operations@[i as int].deep_view() =~= status.operations@[i as int]@);
        }
        let opc = str_to_chars(status.operations[i].as_str());
        let piece = applied(&templates.operation, &opc);
        extend_chars(out, &piece);
        i = i + 1;
    }
    proof {
        assert(ops.take(n as int) =~= ops);
    }
}

/// Format *status* in detailed style
/// (`{name}{branch}{branch tracking}|{local status}`).
pub fn format_full(status: &Status, templates: &Templates) -> (r: String)
    ensures
        r@ == format_full_spec(status@, templates@),
{
    let mut out: Vec<char> = Vec::new();
    let pre = str_to_chars(templates.prefix.as_str());
    extend_chars(&mut out, &pre);
    let namep = name_applied(status, templates);
    extend_chars(&mut out, &namep);
    let branchc = str_to_chars(status.branch.as_str());
    let branchp = applied(&templates.branch, &branchc);
    extend_chars(&mut out, &branchp);
    if status.behind > 0 {
        let v = u32_to_chars(status.behind);
        let piece = applied(&templates.behind, &v);
        extend_chars(&mut out, &piece);
    }
    if status.ahead > 0 {
        let v = u32_to_chars(status.ahead);
        let piece = applied(&templates.ahead, &v);
        extend_chars(&mut out, &piece);
    }
    push_ops_rendered(&mut out, status, templates);
    let sep = str_to_chars(templates.separator.as_str());
    extend_chars(&mut out, &sep);
    if status.staged > 0 {
        let v = u32_to_chars(status.staged);
        let piece = applied(&templates.staged, &v);
        extend_chars(&mut out, &piece);
    }
    if status.conflicts > 0 {
        let v = u32_to_chars(status.conflicts);
        let piece = applied(&templates.conflicts, &v);
        extend_chars(&mut out, &piece);
    }
    if status.changed > 0 {
        let v = u32_to_chars(status.changed);
        let piece = applied(&templates.changed, &v);
        extend_chars(&mut out, &piece);
    }
    if status.untracked > 0 {
        let v = u32_to_chars(status.untracked);
        let piece = applied(&templates.untracked, &v);
        extend_chars(&mut out, &piece);
    }
    if status.is_clean() {
        let cl = str_to_chars(templates.clean.as_str());
        extend_chars(&mut out, &cl);
    }
    let suf = str_to_chars(templates.suffix.as_str());
    extend_chars(&mut out, &suf);
    assert(out@ =~= format_full_spec(status@, templates@));
    chars_to_string(&out)
}

/// Format status in minimal style.
pub fn format_minimal(status: &Status, templates: &Templates) -> (r: String)
    ensures
        r@ == format_minimal_spec(status@, templates@),
{
    let mut out: Vec<char> = Vec::new();
    let pre = str_to_chars(templates.prefix.as_str());
    extend_chars(&mut out, &pre);
    let branchc = str_to_chars(status.branch.as_str());
    let branchp = applied(&templates.branch, &branchc);
    extend_chars(&mut out, &branchp);
    if status.staged > 0 {
        let glyph = str_to_chars("{bold}{yellow}+{reset}");
        extend_chars(&mut out, &glyph);
    }
    if !status.is_clean() {
        let glyph = str_to_chars("{red}*{reset}");
        extend_chars(&mut out, &glyph);
    }
    if status.behind > 0 {
        let v = u32_to_chars(status.behind);
        let piece = applied(&templates.behind, &v);
        extend_chars(&mut out, &piece);
    }
    if status.ahead > 0 {
        let v = u32_to_chars(status.ahead);
        let piece = applied(&templates.ahead, &v);
        extend_chars(&mut out, &piece);
    }
    let suf = str_to_chars(templates.suffix.as_str());
    extend_chars(&mut out, &suf);
    assert(out@ =~= format_minimal_spec(status@, templates@));
    chars_to_string(&out)
}

/// Render *status* through a user-supplied format string: `%` introduces a
/// one-character directive; unknown directives and all other characters
/// pass through.
pub fn format_from_string(status: &Status, templates: &Templates, pattern: &str) -> (r: String)
    ensures
        r@ == format_string_spec(pattern@, status@, templates@),
{
    let pat = str_to_chars(pattern);
    let mut out: Vec<char> = Vec::new();
    let n = pat.len();
    let mut i: usize = 0;
    proof {
        assert(pat@.skip(0) =~= pat@);
        assert(out@ + scan_spec(pat@, status@, templates@) =~= scan_spec(pat@, status@, templates@));
    }
    while i < n
        invariant
            i <= n,
            n == pat@.len(),
            pat@ == pattern@,
            scan_spec(pat@, status@, templates@) == out@ + scan_spec(
                pat@.skip(i as int),
                status@,
                templates@,
            ),
        decreases n - i,
    {
        let ghost rest = pat@.skip(i as int);
        let c = pat[i];
        assert(rest[0] == pat@[i as int]);
        if c == '%' {
            if i + 1 < n {
                let d = pat[i + 1];
                proof {
                    assert(rest.len() >= 2);
                    assert(rest[1] == pat@[i + 1 as int]);
                    assert(rest.skip(2) =~= pat@.skip(i + 2 as int));
                    assert(scan_spec(rest, status@, templates@) == directive(
                        d,
                        status@,
                        templates@,
                    ) + scan_spec(pat@.skip(i + 2 as int), status@, templates@));
                }
                if d == 'n' {
                    let piece = name_applied(status, templates);
                    extend_chars(&mut out, &piece);
                } else if d == 'b' {
                    let branchc = str_to_chars(status.branch.as_str());
                    let piece = applied(&templates.branch, &branchc);
                    extend_chars(&mut out, &piece);
                } else if d == 'c' {
                    let cm = status.fmt_commit(7);
                    let cmc = str_to_chars(cm.as_str());
                    let piece = applied(&templates.commit, &cmc);
                    extend_chars(&mut out, &piece);
                } else if d == 'A' {
                    if status.ahead > 0 {
                        let v = u32_to_chars(status.ahead);
                        let piece = applied(&templates.ahead, &v);
                        extend_chars(&mut out, &piece);
                    }
                } else if d == 'B' {
                    if status.behind > 0 {
                        let v = u32_to_chars(status.behind);
                        let piece = applied(&templates.behind, &v);
                        extend_chars(&mut out, &piece);
                    }
                } else if d == 's' {
                    if status.staged > 0 {
                        let v = u32_to_chars(status.staged);
                        let piece = applied(&templates.staged, &v);
                        extend_chars(&mut out, &piece);
                    }
                } else if d == 'U' {
                    if status.conflicts > 0 {
                        let v = u32_to_chars(status.conflicts);
                        let piece = applied(&templates.conflicts, &v);
                        extend_chars(&mut out, &piece);
                    }
                } else if d == 'm' {
                    if status.changed > 0 {
                        let v = u32_to_chars(status.changed);
                        let piece = applied(&templates.changed, &v);
                        extend_chars(&mut out, &piece);
                    }
                } else if d == 'u' {
                    if status.untracked > 0 {
                        let v = u32_to_chars(status.untracked);
                        let piece = applied(&templates.untracked, &v);
                        extend_chars(&mut out, &piece);
                    }
                } else if d == 'o' {
                    push_ops_concat(&mut out, status, templates);
                } else {
                    out.push(d);
                }
                i = i + 2;
            } else {
                proof {
                    assert(rest.len() == 1);
                    assert(scan_spec(rest, status@, templates@) == Seq::<char>::empty());
                    assert(pat@.skip(i + 1 as int) =~= Seq::<char>::empty());
                    assert(scan_spec(pat@.skip(i + 1 as int), status@, templates@) == Seq::<
                        char,
                    >::empty());
                }
                i = i + 1;
            }
        } else {
            proof {
                assert(rest.skip(1) =~= pat@.skip(i + 1 as int));
                assert(scan_spec(rest, status@, templates@) == seq![pat@[i as int]] + scan_spec(
                    pat@.skip(i + 1 as int),
                    status@,
                    templates@,
                ));
            }
            out.push(c);
            i = i + 1;
        }
    }
    proof {
        assert(pat@.skip(n as int) =~= Seq::<char>::empty());
        assert(scan_spec(Seq::<char>::empty(), status@, templates@) == Seq::<char>::empty());
    }
    if status.is_clean() {
        let cl = str_to_chars(templates.clean.as_str());
        extend_chars(&mut out, &cl);
    }
    let suf = str_to_chars(templates.suffix.as_str());
    extend_chars(&mut out, &suf);
    assert(out@ =~= format_string_spec(pattern@, status@, templates@));
    chars_to_string(&out)
}

} // verus!
