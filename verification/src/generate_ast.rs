//! The syntax-tree boilerplate generator.
//!
//! A one-shot development tool: from a textual grammar description
//! (`"Binary   : Box<Expr> left, Token operator, Box<Expr> right"`) it
//! emits the source text of a node module — the enum over the node kinds,
//! one struct per kind, a visitor trait, and the `accept` dispatchers.
//! The functions here only build the text; the caller decides where the
//! files go. `define_ast_text` is the exact text produced.

use vstd::prelude::*;
use vstd::string::{StrSliceExecFns, StringExecFns};

verus! {

broadcast use vstd::std_specs::vec::group_vec_axioms, vstd::seq::group_seq_axioms;

/// The index of the first `c` at or after `i`, if any.
pub open spec fn find_ch(s: Seq<char>, i: int, c: char) -> Option<int>
    decreases s.len() - i,
{
    if i < 0 || i >= s.len() {
        None
    } else if s[i] == c {
        Some(i)
    } else {
        find_ch(s, i + 1, c)
    }
}

proof fn lemma_find_ch_ge(s: Seq<char>, i: int, c: char)
    ensures
        find_ch(s, i, c) matches Some(j) ==> i <= j < s.len(),
    decreases s.len() - i,
{
    if 0 <= i < s.len() && s[i] != c {
        lemma_find_ch_ge(s, i + 1, c);
    }
}

/// The first index at or after `i` that is not a space.
pub open spec fn skip_sp(s: Seq<char>, i: int) -> int
    decreases s.len() - i,
{
    if 0 <= i < s.len() && s[i] == ' ' {
        skip_sp(s, i + 1)
    } else {
        i
    }
}

/// The cut just before the trailing run of spaces ending at `j`.
pub open spec fn rskip_sp(s: Seq<char>, j: int) -> int
    decreases j,
{
    if 0 < j <= s.len() && s[j - 1] == ' ' {
        rskip_sp(s, j - 1)
    } else {
        j
    }
}

/// `s` with leading and trailing spaces removed.
pub open spec fn trim_sp(s: Seq<char>) -> Seq<char> {
    let a = skip_sp(s, 0);
    let b = rskip_sp(s, s.len() as int);
    if a <= b {
        s.subrange(a, b)
    } else {
        Seq::empty()
    }
}

/// An uppercase ASCII letter folded to lowercase; anything else is kept.
pub open spec fn lower_ch(c: char) -> char {
    if 'A' <= c && c <= 'Z' {
        if c == 'A' {
            'a'
        } else if c == 'B' {
            'b'
        } else if c == 'C' {
            'c'
        } else if c == 'D' {
            'd'
        } else if c == 'E' {
            'e'
        } else if c == 'F' {
            'f'
        } else if c == 'G' {
            'g'
        } else if c == 'H' {
            'h'
        } else if c == 'I' {
            'i'
        } else if c == 'J' {
            'j'
        } else if c == 'K' {
            'k'
        } else if c == 'L' {
            'l'
        } else if c == 'M' {
            'm'
        } else if c == 'N' {
            'n'
        } else if c == 'O' {
            'o'
        } else if c == 'P' {
            'p'
        } else if c == 'Q' {
            'q'
        } else if c == 'R' {
            'r'
        } else if c == 'S' {
            's'
        } else if c == 'T' {
            't'
        } else if c == 'U' {
            'u'
        } else if c == 'V' {
            'v'
        } else if c == 'W' {
            'w'
        } else if c == 'X' {
            'x'
        } else if c == 'Y' {
            'y'
        } else {
            'z'
        }
    } else {
        c
    }
}

pub open spec fn spec_is_ascii_alpha(c: char) -> bool {
    ('a' <= c && c <= 'z') || ('A' <= c && c <= 'Z')
}

/// The lowercase spelling of an identifier: ASCII letters folded, any
/// other character dropped (the names this tool sees are plain ASCII
/// identifiers).
pub open spec fn lower_ident(s: Seq<char>) -> Seq<char>
    decreases s.len(),
{
    if s.len() == 0 {
        Seq::empty()
    } else if spec_is_ascii_alpha(s[0]) {
        seq![lower_ch(s[0])] + lower_ident(s.drop_first())
    } else {
        lower_ident(s.drop_first())
    }
}

/// The node name of a grammar description: everything before the `:`,
/// trimmed (or the whole trimmed line when no `:` is present).
pub open spec fn desc_base(d: Seq<char>) -> Seq<char> {
    match find_ch(d, 0, ':') {
        Some(k) => trim_sp(d.subrange(0, k)),
        None => trim_sp(d),
    }
}

/// The field section of a grammar description: everything after the `:`.
pub open spec fn desc_args(d: Seq<char>) -> Seq<char> {
    match find_ch(d, 0, ':') {
        Some(k) => d.subrange(k + 1, d.len() as int),
        None => Seq::empty(),
    }
}

/// One `name: type` field declaration from a `type name` piece (empty
/// when the piece has no interior space).
pub open spec fn field_decl(piece: Seq<char>) -> Seq<char> {
    let t = trim_sp(piece);
    match find_ch(t, 0, ' ') {
        Some(j) => t.subrange(j + 1, t.len() as int) + ": "@ + t.subrange(0, j),
        None => Seq::empty(),
    }
}

/// The struct name of a node: its name followed by the base name.
pub open spec fn cls(d: Seq<char>, bn: Seq<char>) -> Seq<char> {
    desc_base(d) + bn
}

pub open spec fn imports_text(imps: Seq<Seq<char>>, i: int) -> Seq<char>
    decreases imps.len() - i,
{
    if i < 0 || i >= imps.len() {
        Seq::empty()
    } else {
        imps[i] + "\n"@ + imports_text(imps, i + 1)
    }
}

pub open spec fn enum_arms(types: Seq<Seq<char>>, bn: Seq<char>, i: int) -> Seq<char>
    decreases types.len() - i,
{
    if i < 0 || i >= types.len() {
        Seq::empty()
    } else {
        "    "@ + desc_base(types[i]) + "("@ + cls(types[i], bn) + "),\n"@ + enum_arms(
            types,
            bn,
            i + 1,
        )
    }
}

pub open spec fn accept_arms(types: Seq<Seq<char>>, bn: Seq<char>, bl: Seq<char>, i: int) -> Seq<
    char,
>
    decreases types.len() - i,
{
    if i < 0 || i >= types.len() {
        Seq::empty()
    } else {
        "            "@ + bn + "::"@ + desc_base(types[i]) + "("@ + bl + ") => {\n"@
            + "                "@ + bl + ".accept(visitor)\n"@ + "            }\n"@ + accept_arms(
            types,
            bn,
            bl,
            i + 1,
        )
    }
}

/// The `    pub name: type,` lines for the comma-separated pieces of the
/// field section from position `p` on.
pub open spec fn fields_text(args: Seq<char>, p: int) -> Seq<char>
    decreases args.len() - p,
    when 0 <= p
    via fields_text_decreases
{
    match find_ch(args, p, ',') {
        Some(j) => "    pub "@ + field_decl(args.subrange(p, j)) + ",\n"@ + fields_text(
            args,
            j + 1,
        ),
        None => "    pub "@ + field_decl(
            args.subrange(if p <= args.len() {
                p
            } else {
                args.len() as int
            }, args.len() as int),
        ) + ",\n"@,
    }
}

#[via_fn]
proof fn fields_text_decreases(args: Seq<char>, p: int) {
    lemma_find_ch_ge(args, p, ',');
}

pub open spec fn structs_text(types: Seq<Seq<char>>, bn: Seq<char>, i: int) -> Seq<char>
    decreases types.len() - i,
{
    if i < 0 || i >= types.len() {
        Seq::empty()
    } else {
        "pub struct "@ + cls(types[i], bn) + " {\n"@ + fields_text(desc_args(types[i]), 0)
            + "}\n\n"@ + structs_text(types, bn, i + 1)
    }
}

pub open spec fn trait_lines(types: Seq<Seq<char>>, bn: Seq<char>, bl: Seq<char>, i: int) -> Seq<
    char,
>
    decreases types.len() - i,
{
    if i < 0 || i >= types.len() {
        Seq::empty()
    } else {
        "    fn visit_"@ + lower_ident(desc_base(types[i])) + "_"@ + bl + "(&self, "@ + bl + ": &"@
            + cls(types[i], bn) + ") -> Result<T, LoxError>;\n"@ + trait_lines(
            types,
            bn,
            bl,
            i + 1,
        )
    }
}

pub open spec fn impls_text(types: Seq<Seq<char>>, bn: Seq<char>, bl: Seq<char>, i: int) -> Seq<
    char,
>
    decreases types.len() - i,
{
    if i < 0 || i >= types.len() {
        Seq::empty()
    } else {
        "impl "@ + cls(types[i], bn) + " {\n"@
            + "    pub fn accept<T>(&self, visitor: &dyn "@ + bn
            + "Visitor<T>) -> Result<T, LoxError> {\n"@ + "        visitor.visit_"@ + lower_ident(
            desc_base(types[i]),
        ) + "_"@ + bl + "(self)\n"@ + "    }\n"@ + "}\n\n"@ + impls_text(types, bn, bl, i + 1)
    }
}

/// The whole generated module: the imports, the node enum, its `accept`
/// dispatcher, one struct per node, the visitor trait, and one `accept`
/// impl per node.
pub open spec fn define_ast_text(
    bn: Seq<char>,
    bl: Seq<char>,
    imps: Seq<Seq<char>>,
    types: Seq<Seq<char>>,
) -> Seq<char> {
    imports_text(imps, 0) + "\npub enum "@ + bn + " {\n"@ + enum_arms(types, bn, 0) + "}\n\n"@
        + "impl "@ + bn + " {\n"@
        + "    pub fn accept<T>(&self, visitor: &dyn "@ + bn
        + "Visitor<T>) -> Result<T, LoxError> {\n"@ + "        match self {\n"@ + accept_arms(
        types,
        bn,
        bl,
        0,
    ) + "        }\n    }\n}\n\n"@ + structs_text(types, bn, 0) + "pub trait "@ + bn
        + "Visitor<T> {\n"@ + trait_lines(types, bn, bl, 0) + "}\n\n"@ + impls_text(types, bn, bl, 0)
}

/// The views of a list of strings.
pub open spec fn strs_view(v: Seq<String>) -> Seq<Seq<char>> {
    v.map_values(|s: String| s@)
}

fn find_char(s: &str, from: usize, c: char) -> (r: Option<usize>)
    ensures
        match r {
            Some(j) => from <= j < s@.len() && find_ch(s@, from as int, c) == Some(j as int),
            None => find_ch(s@, from as int, c) is None,
        },
{
    let n = s.unicode_len();
    if from > n {
        return None;
    }
    let mut i = from;
    while i < n
        invariant
            from <= i <= n,
            n == s@.len(),
            find_ch(s@, from as int, c) == find_ch(s@, i as int, c),
        decreases n - i,
    {
        if s.get_char(i) == c {
            return Some(i);
        }
        i = i + 1;
    }
    None
}

proof fn lemma_rskip_le(s: Seq<char>, j: int)
    ensures
        rskip_sp(s, j) <= j,
    decreases j,
{
    if 0 < j <= s.len() && s[j - 1] == ' ' {
        lemma_rskip_le(s, j - 1);
    }
}

fn trim_spaces<'a>(s: &'a str) -> (r: &'a str)
    ensures
        r@ == trim_sp(s@),
{
    let n = s.unicode_len();
    let mut a: usize = 0;
    while a < n && s.get_char(a) == ' '
        invariant
            a <= n,
            n == s@.len(),
            skip_sp(s@, 0) == skip_sp(s@, a as int),
        decreases n - a,
    {
        a = a + 1;
    }
    let mut b: usize = n;
    while b > a && s.get_char(b - 1) == ' '
        invariant
            a <= b <= n,
            n == s@.len(),
            rskip_sp(s@, n as int) == rskip_sp(s@, b as int),
        decreases b,
    {
        b = b - 1;
    }
    proof {
        assert(skip_sp(s@, a as int) == a as int);
        if b > a {
            assert(rskip_sp(s@, b as int) == b as int);
            assert(trim_sp(s@) =~= s@.subrange(a as int, b as int));
        } else {
            lemma_rskip_le(s@, b as int);
            assert(trim_sp(s@) =~= s@.subrange(a as int, a as int)) by {
                let bb = rskip_sp(s@, n as int);
                assert(bb <= a);
            }
        }
    }
    s.substring_char(a, b)
}

fn lower_letter(c: char) -> (r: &'static str)
    requires
        spec_is_ascii_alpha(c),
    ensures
        r@ =~= seq![lower_ch(c)],
{
    proof {
        reveal_strlit("a");
        reveal_strlit("b");
        reveal_strlit("c");
        reveal_strlit("d");
        reveal_strlit("e");
        reveal_strlit("f");
        reveal_strlit("g");
        reveal_strlit("h");
        reveal_strlit("i");
        reveal_strlit("j");
        reveal_strlit("k");
        reveal_strlit("l");
        reveal_strlit("m");
        reveal_strlit("n");
        reveal_strlit("o");
        reveal_strlit("p");
        reveal_strlit("q");
        reveal_strlit("r");
        reveal_strlit("s");
        reveal_strlit("t");
        reveal_strlit("u");
        reveal_strlit("v");
        reveal_strlit("w");
        reveal_strlit("x");
        reveal_strlit("y");
        reveal_strlit("z");
    }
    match c {
        'A' | 'a' => "a",
        'B' | 'b' => "b",
        'C' | 'c' => "c",
        'D' | 'd' => "d",
        'E' | 'e' => "e",
        'F' | 'f' => "f",
        'G' | 'g' => "g",
        'H' | 'h' => "h",
        'I' | 'i' => "i",
        'J' | 'j' => "j",
        'K' | 'k' => "k",
        'L' | 'l' => "l",
        'M' | 'm' => "m",
        'N' | 'n' => "n",
        'O' | 'o' => "o",
        'P' | 'p' => "p",
        'Q' | 'q' => "q",
        'R' | 'r' => "r",
        'S' | 's' => "s",
        'T' | 't' => "t",
        'U' | 'u' => "u",
        'V' | 'v' => "v",
        'W' | 'w' => "w",
        'X' | 'x' => "x",
        'Y' | 'y' => "y",
        _ => {
            proof {
                assert(c == 'Z' || c == 'z');
            }
            "z"
        },
    }
}

fn lower_ident_str(s: &str) -> (r: String)
    ensures
        r@ == lower_ident(s@),
{
    let n = s.unicode_len();
    let mut out = String::new();
    let mut i: usize = 0;
    proof {
        assert(s@.subrange(0, n as int) =~= s@);
    }
    while i < n
        invariant
            i <= n,
            n == s@.len(),
            out@ + lower_ident(s@.subrange(i as int, n as int)) == lower_ident(s@),
        decreases n - i,
    {
        let c = s.get_char(i);
        proof {
            assert(s@.subrange(i as int, n as int).drop_first() =~= s@.subrange(
                i + 1,
                n as int,
            ));
            assert(s@.subrange(i as int, n as int)[0] == s@[i as int]);
        }
        let alpha = (c >= 'a' && c <= 'z') || (c >= 'A' && c <= 'Z');
        if alpha {
            out.append(lower_letter(c));
            proof {
                assert(out@ + lower_ident(s@.subrange(i + 1, n as int)) =~= lower_ident(s@));
            }
        }
        i = i + 1;
    }
    proof {
        assert(s@.subrange(n as int, n as int) =~= Seq::<char>::empty());
        assert(out@ =~= lower_ident(s@));
    }
    out
}

fn desc_base_str<'a>(d: &'a str) -> (r: &'a str)
    ensures
        r@ == desc_base(d@),
{
    match find_char(d, 0, ':') {
        Some(k) => trim_spaces(d.substring_char(0, k)),
        None => trim_spaces(d),
    }
}

fn desc_args_str<'a>(d: &'a str) -> (r: &'a str)
    ensures
        r@ == desc_args(d@),
{
    let n = d.unicode_len();
    match find_char(d, 0, ':') {
        Some(k) => d.substring_char(k + 1, n),
        None => {
            proof {
                reveal_strlit("");
            }
            ""
        },
    }
}

/// One `    pub name: type,` line from one `type name` piece.
fn field_line(piece: &str) -> (r: String)
    ensures
        r@ == "    pub "@ + field_decl(piece@) + ",\n"@,
{
    let t = trim_spaces(piece);
    let mut out = String::from_str("    pub ");
    let tn = t.unicode_len();
    match find_char(t, 0, ' ') {
        Some(j) => {
            let name = t.substring_char(j + 1, tn);
            let typ = t.substring_char(0, j);
            out.append(name);
            out.append(": ");
            out.append(typ);
        },
        None => {},
    }
    out.append(",\n");
    proof {
        assert(out@ =~= "    pub "@ + field_decl(piece@) + ",\n"@);
    }
    out
}

/// Builds the source text of one generated node module.
pub fn define_ast(
    base_name: &str,
    base_lower: &str,
    imports: &Vec<String>,
    types: &Vec<String>,
) -> (out: String)
    ensures
        out@ == define_ast_text(base_name@, base_lower@, strs_view(imports@), strs_view(types@)),
{
    let ghost iv = strs_view(imports@);
    let ghost tv = strs_view(types@);
    let ghost bn = base_name@;
    let ghost bl = base_lower@;
    let mut out = String::new();
    let ni = imports.len();
    let mut i: usize = 0;
    while i < ni
        invariant
            i <= ni,
            ni == iv.len(),
            iv == strs_view(imports@),
            out@ + imports_text(iv, i as int) == imports_text(iv, 0),
        decreases ni - i,
    {
        out.append(imports[i].as_str());
        out.append("\n");
        proof {
            assert(iv[i as int] == imports@[i as int]@);
            assert(out@ + imports_text(iv, i + 1) =~= imports_text(iv, 0));
        }
        i = i + 1;
    }
    let ghost sec0 = imports_text(iv, 0);
    proof {
        assert(out@ =~= sec0);
    }
    out.append("\npub enum ");
    out.append(base_name);
    out.append(" {\n");
    let ghost sec1 = sec0 + "\npub enum "@ + bn + " {\n"@;
    proof {
        assert(out@ =~= sec1);
    }
    let nt = types.len();
    let mut k: usize = 0;
    while k < nt
        invariant
            k <= nt,
            nt == tv.len(),
            tv == strs_view(types@),
            bn == base_name@,
            out@ + enum_arms(tv, bn, k as int) == sec1 + enum_arms(tv, bn, 0),
        decreases nt - k,
    {
        let base = desc_base_str(types[k].as_str());
        out.append("    ");
        out.append(base);
        out.append("(");
        out.append(base);
        out.append(base_name);
        out.append("),\n");
        proof {
            assert(tv[k as int] == types@[k as int]@);
            assert(out@ + enum_arms(tv, bn, k + 1) =~= sec1 + enum_arms(tv, bn, 0));
        }
        k = k + 1;
    }
    out.append("}\n\n");
    out.append("impl ");
    out.append(base_name);
    out.append(" {\n");
    out.append("    pub fn accept<T>(&self, visitor: &dyn ");
    out.append(base_name);
    out.append("Visitor<T>) -> Result<T, LoxError> {\n");
    out.append("        match self {\n");
    let ghost sec2 = sec1 + enum_arms(tv, bn, 0) + "}\n\n"@ + "impl "@ + bn + " {\n"@
        + "    pub fn accept<T>(&self, visitor: &dyn "@ + bn
        + "Visitor<T>) -> Result<T, LoxError> {\n"@ + "        match self {\n"@;
    proof {
        assert(out@ =~= sec2);
    }
    let mut k2: usize = 0;
    while k2 < nt
        invariant
            k2 <= nt,
            nt == tv.len(),
            tv == strs_view(types@),
            bn == base_name@,
            bl == base_lower@,
            out@ + accept_arms(tv, bn, bl, k2 as int) == sec2 + accept_arms(tv, bn, bl, 0),
        decreases nt - k2,
    {
        let base = desc_base_str(types[k2].as_str());
        out.append("            ");
        out.append(base_name);
        out.append("::");
        out.append(base);
        out.append("(");
        out.append(base_lower);
        out.append(") => {\n");
        out.append("                ");
        out.append(base_lower);
        out.append(".accept(visitor)\n");
        out.append("            }\n");
        proof {
            assert(tv[k2 as int] == types@[k2 as int]@);
            assert(out@ + accept_arms(tv, bn, bl, k2 + 1) =~= sec2 + accept_arms(tv, bn, bl, 0));
        }
        k2 = k2 + 1;
    }
    out.append("        }\n    }\n}\n\n");
    let ghost sec3 = sec2 + accept_arms(tv, bn, bl, 0) + "        }\n    }\n}\n\n"@;
    proof {
        assert(out@ =~= sec3);
    }
    let mut k3: usize = 0;
    while k3 < nt
        invariant
            k3 <= nt,
            nt == tv.len(),
            tv == strs_view(types@),
            bn == base_name@,
            out@ + structs_text(tv, bn, k3 as int) == sec3 + structs_text(tv, bn, 0),
        decreases nt - k3,
    {
        let base = desc_base_str(types[k3].as_str());
        out.append("pub struct ");
        out.append(base);
        out.append(base_name);
        out.append(" {\n");
        let args = desc_args_str(types[k3].as_str());
        let ghost av = args@;
        let ghost pre_fields = out@;
        let na = args.unicode_len();
        let mut p: usize = 0;
        loop
            invariant_except_break
                p <= na,
                na == av.len(),
                av == args@,
                out@ + fields_text(av, p as int) == pre_fields + fields_text(av, 0),
            ensures
                out@ == pre_fields + fields_text(av, 0),
            decreases na - p,
        {
            match find_char(args, p, ',') {
                Some(j) => {
                    let line = field_line(args.substring_char(p, j));
                    out.append(line.as_str());
                    proof {
                        assert(out@ + fields_text(av, j + 1) =~= pre_fields + fields_text(av, 0));
                    }
                    p = j + 1;
                },
                None => {
                    let pp = if p < na {
                        p
                    } else {
                        na
                    };
                    let line = field_line(args.substring_char(pp, na));
                    out.append(line.as_str());
                    proof {
                        assert(out@ =~= pre_fields + fields_text(av, 0));
                    }
                    break ;
                },
            }
        }
        out.append("}\n\n");
        proof {
            assert(tv[k3 as int] == types@[k3 as int]@);
            assert(out@ + structs_text(tv, bn, k3 + 1) =~= sec3 + structs_text(tv, bn, 0));
        }
        k3 = k3 + 1;
    }
    out.append("pub trait ");
    out.append(base_name);
    out.append("Visitor<T> {\n");
    let ghost sec4 = sec3 + structs_text(tv, bn, 0) + "pub trait "@ + bn + "Visitor<T> {\n"@;
    proof {
        assert(out@ =~= sec4);
    }
    let mut k4: usize = 0;
    while k4 < nt
        invariant
            k4 <= nt,
            nt == tv.len(),
            tv == strs_view(types@),
            bn == base_name@,
            bl == base_lower@,
            out@ + trait_lines(tv, bn, bl, k4 as int) == sec4 + trait_lines(tv, bn, bl, 0),
        decreases nt - k4,
    {
        let base = desc_base_str(types[k4].as_str());
        let low = lower_ident_str(base);
        out.append("    fn visit_");
        out.append(low.as_str());
        out.append("_");
        out.append(base_lower);
        out.append("(&self, ");
        out.append(base_lower);
        out.append(": &");
        out.append(base);
        out.append(base_name);
        out.append(") -> Result<T, LoxError>;\n");
        proof {
            assert(tv[k4 as int] == types@[k4 as int]@);
            assert(out@ + trait_lines(tv, bn, bl, k4 + 1) =~= sec4 + trait_lines(tv, bn, bl, 0));
        }
        k4 = k4 + 1;
    }
    out.append("}\n\n");
    let ghost sec5 = sec4 + trait_lines(tv, bn, bl, 0) + "}\n\n"@;
    proof {
        assert(out@ =~= sec5);
    }
    let mut k5: usize = 0;
    while k5 < nt
        invariant
            k5 <= nt,
            nt == tv.len(),
            tv == strs_view(types@),
            bn == base_name@,
            bl == base_lower@,
            out@ + impls_text(tv, bn, bl, k5 as int) == sec5 + impls_text(tv, bn, bl, 0),
        decreases nt - k5,
    {
        let base = desc_base_str(types[k5].as_str());
        let low = lower_ident_str(base);
        out.append("impl ");
        out.append(base);
        out.append(base_name);
        out.append(" {\n");
        out.append("    pub fn accept<T>(&self, visitor: &dyn ");
        out.append(base_name);
        out.append("Visitor<T>) -> Result<T, LoxError> {\n");
        out.append("        visitor.visit_");
        out.append(low.as_str());
        out.append("_");
        out.append(base_lower);
        out.append("(self)\n");
        out.append("    }\n");
        out.append("}\n\n");
        proof {
            assert(tv[k5 as int] == types@[k5 as int]@);
            assert(out@ + impls_text(tv, bn, bl, k5 + 1) =~= sec5 + impls_text(tv, bn, bl, 0));
        }
        k5 = k5 + 1;
    }
    proof {
        assert(out@ =~= define_ast_text(bn, bl, iv, tv));
    }
    out
}

/// The grammar description of the expression nodes.
pub open spec fn expr_imports() -> Seq<Seq<char>> {
    seq!["use crate::error::*;"@, "use crate::token::*;"@, "use crate::lit::*;"@]
}

pub open spec fn expr_types() -> Seq<Seq<char>> {
    seq![
        "Assign   : Token name, Box<Expr> value"@,
        "Binary   : Box<Expr> left, Token operator, Box<Expr> right"@,
        "Grouping : Box<Expr> expression"@,
        "Literal  : Option<Lit> value"@,
        "Logical   : Box<Expr> left, Token operator, Box<Expr> right"@,
        "Unary    : Token operator, Box<Expr> right"@,
        "Variable : Token name"@,
    ]
}

/// The grammar description of the statement nodes.
pub open spec fn stmt_imports() -> Seq<Seq<char>> {
    seq!["use crate::error::*;"@, "use crate::token::*;"@, "use crate::expr::*;"@]
}

pub open spec fn stmt_types() -> Seq<Seq<char>> {
    seq![
        "Block        : Vec<Stmt> statements"@,
        "Expression   : Expr expression"@,
        "If           : Expr condition, Box<Stmt> then_branch, Option<Box<Stmt>> else_branch"@,
        "Print        : Expr expression"@,
        "Var          : Token name, Option<Expr> initializer"@,
    ]
}

/// Generates the two node modules: the name and the full source text of
/// each emitted file.
pub fn generate_ast() -> (files: Vec<(String, String)>)
    ensures
        files@.len() == 2,
        files@[0].0@ == "expr.rs"@,
        files@[0].1@ == define_ast_text("Expr"@, "expr"@, expr_imports(), expr_types()),
        files@[1].0@ == "stmt.rs"@,
        files@[1].1@ == define_ast_text("Stmt"@, "stmt"@, stmt_imports(), stmt_types()),
{
    let mut ei: Vec<String> = Vec::new();
    ei.push(String::from_str("use crate::error::*;"));
    ei.push(String::from_str("use crate::token::*;"));
    ei.push(String::from_str("use crate::lit::*;"));
    let mut et: Vec<String> = Vec::new();
    et.push(String::from_str("Assign   : Token name, Box<Expr> value"));
    et.push(String::from_str("Binary   : Box<Expr> left, Token operator, Box<Expr> right"));
    et.push(String::from_str("Grouping : Box<Expr> expression"));
    et.push(String::from_str("Literal  : Option<Lit> value"));
    et.push(String::from_str("Logical   : Box<Expr> left, Token operator, Box<Expr> right"));
    et.push(String::from_str("Unary    : Token operator, Box<Expr> right"));
    et.push(String::from_str("Variable : Token name"));
    proof {
        assert(strs_view(ei@) =~= expr_imports());
        assert(strs_view(et@) =~= expr_types());
    }
    let expr_src = define_ast("Expr", "expr", &ei, &et);
    let mut si: Vec<String> = Vec::new();
    si.push(String::from_str("use crate::error::*;"));
    si.push(String::from_str("use crate::token::*;"));
    si.push(String::from_str("use crate::expr::*;"));
    let mut st: Vec<String> = Vec::new();
    st.push(String::from_str("Block        : Vec<Stmt> statements"));
    st.push(String::from_str("Expression   : Expr expression"));
    st.push(
        String::from_str(
            "If           : Expr condition, Box<Stmt> then_branch, Option<Box<Stmt>> else_branch",
        ),
    );
    st.push(String::from_str("Print        : Expr expression"));
    st.push(String::from_str("Var          : Token name, Option<Expr> initializer"));
    proof {
        assert(strs_view(si@) =~= stmt_imports());
        assert(strs_view(st@) =~= stmt_types());
    }
    let stmt_src = define_ast("Stmt", "stmt", &si, &st);
    let mut files: Vec<(String, String)> = Vec::new();
    files.push((String::from_str("expr.rs"), expr_src));
    files.push((String::from_str("stmt.rs"), stmt_src));
    files
}

} // verus!
