//! The text that the command-line reporter prints.  Each report is the
//! exact text for the console; in JSON mode the values go to the caller's
//! serializer instead, except for the listings that are written as JSON by
//! hand.

use crate::headless::ProgressReporter;
use crate::models::{
    DownloadMetadata, FileTreeNode, LfsInfo, ModelInfo, ModelMetadata, QuantizationGroup, QuantizationInfo, RepoFile,
};
use crate::render::{push_right_aligned, right_aligned};
use crate::text::{decimal, decimal_string, lemma_utf8_prefix, push_chars, push_decimal, to_chars, utf8_len};
use crate::tree::{build_file_tree, built, sort_tree, tview, views_of, vsized, vtotal, NodeView};
use crate::utils::{format_size, size_text};
use vstd::prelude::*;

verus! {

/// Where a report goes.
#[derive(Debug, Clone, PartialEq, Eq)]
pub enum Report {
    /// Text for standard output, printed as it is.
    Stdout(String),
    /// Text for standard error.
    Stderr(String),
    /// JSON mode: the caller serializes the reported values.
    Json,
}

// ---------------------------------------------------------------------------
// Text building
// ---------------------------------------------------------------------------

/// `s` as a line.
pub open spec fn line(s: Seq<char>) -> Seq<char> {
    s + "\n"@
}

/// The pieces one after another.
pub open spec fn concat(parts: Seq<Seq<char>>) -> Seq<char>
    decreases parts.len(),
{
    if parts.len() == 0 {
        Seq::<char>::empty()
    } else {
        concat(parts.drop_last()) + parts.last()
    }
}

/// Whole mebibytes of `n` bytes.
pub open spec fn mib(n: nat) -> Seq<char> {
    decimal(n / 1048576)
}

proof fn lemma_concat_step(parts: Seq<Seq<char>>, i: int)
    requires
        0 <= i < parts.len(),
    ensures
        concat(parts.take(i + 1)) == concat(parts.take(i)) + parts[i],
{
    assert(parts.take(i + 1).drop_last() =~= parts.take(i));
    assert(parts.take(i + 1).last() == parts[i]);
}

proof fn lemma_concat_all(parts: Seq<Seq<char>>)
    ensures
        concat(parts.take(parts.len() as int)) == concat(parts),
{
    assert(parts.take(parts.len() as int) =~= parts);
}

fn put(out: &mut String, s: &str)
    ensures
        final(out)@ == old(out)@ + s@,
{
    out.append(s);
}

fn put_dec(out: &mut String, n: u64)
    ensures
        final(out)@ == old(out)@ + decimal(n as nat),
{
    let d = decimal_string(n);
    out.append(d.as_str());
}

fn put_mib(out: &mut String, n: u64)
    ensures
        final(out)@ == old(out)@ + mib(n as nat),
{
    put_dec(out, n / 1048576);
}

fn put_size(out: &mut String, n: u64)
    ensures
        final(out)@ == old(out)@ + size_text(n as nat),
{
    let d = format_size(n);
    out.append(d.as_str());
}

// ---------------------------------------------------------------------------
// Per-item pieces
// ---------------------------------------------------------------------------

pub open spec fn search_row(m: ModelInfo) -> Seq<char> {
    line("  - "@ + m.id@ + " ("@ + decimal(m.downloads as nat) + " downloads, "@ + decimal(m.likes as nat) + " likes)"@)
}

pub open spec fn name_row(name: Seq<char>) -> Seq<char> {
    line("  - "@ + name)
}

pub open spec fn numbered_row(i: int, name: Seq<char>) -> Seq<char> {
    line("  "@ + decimal((i + 1) as nat) + ". "@ + name)
}

pub open spec fn sized_row(name: Seq<char>, size: u64) -> Seq<char> {
    line("  - "@ + name + " ("@ + size_text(size as nat) + ")"@)
}

pub open spec fn plural(n: nat) -> Seq<char> {
    if n == 1 {
        ""@
    } else {
        "s"@
    }
}

pub open spec fn table_file_row(f: QuantizationInfo) -> Seq<char> {
    line("    - "@ + f.filename@ + " ("@ + size_text(f.size as nat) + ")"@)
}

pub open spec fn table_group(g: QuantizationGroup) -> Seq<char> {
    line("  "@ + g.quant_type@ + " ("@ + size_text(g.total_size as nat) + " total, "@ + decimal(g.files@.len()) + " file"@
        + plural(g.files@.len()) + ")"@) + concat(g.files@.map_values(|f: QuantizationInfo| table_file_row(f)))
        + "\n"@
}

pub open spec fn listing_file_row(f: QuantizationInfo) -> Seq<char> {
    line("      - "@ + f.filename@ + " ("@ + mib(f.size as nat) + " MB)"@)
}

pub open spec fn listing_group(g: QuantizationGroup) -> Seq<char> {
    line("  - "@ + g.quant_type@ + " ("@ + decimal(g.files@.len()) + " files, "@ + mib(g.total_size as nat) + " MB total)"@)
        + concat(g.files@.map_values(|f: QuantizationInfo| listing_file_row(f)))
}

/// The quoted file names of a group, separated by `, `.
pub open spec fn quoted_name(j: int, f: QuantizationInfo) -> Seq<char> {
    (if j > 0 {
        ", "@
    } else {
        ""@
    }) + "\""@ + f.filename@ + "\""@
}

pub open spec fn quoted_names(files: Seq<QuantizationInfo>) -> Seq<char> {
    concat(Seq::new(files.len(), |j: int| quoted_name(j, files[j])))
}

/// One group of the hand-written JSON listings; `close` ends its file list
/// (a newline in one listing, nothing in the other).
pub open spec fn json_group(i: int, g: QuantizationGroup, close: Seq<char>) -> Seq<char> {
    (if i > 0 {
        ",\n"@
    } else {
        ""@
    }) + "    {\n"@ + "      \"quant_type\": \""@ + g.quant_type@ + "\",\n"@ + "      \"total_size\": "@ + decimal(
        g.total_size as nat,
    ) + ",\n"@ + "      \"file_count\": "@ + decimal(g.files@.len()) + "\n"@ + "      \"files\": ["@ + quoted_names(
        g.files@,
    ) + "]"@ + close + "    }"@
}

pub open spec fn json_groups(gs: Seq<QuantizationGroup>, close: Seq<char>) -> Seq<char> {
    concat(Seq::new(gs.len(), |i: int| json_group(i, gs[i], close)))
}

pub open spec fn json_file(i: int, name: Seq<char>, size: Option<u64>) -> Seq<char> {
    (if i > 0 {
        ",\n"@
    } else {
        ""@
    }) + "    { \"filename\": \""@ + name + "\", \"size\": "@ + decimal(
        match size {
            Some(s) => s as nat,
            None => 0,
        },
    ) + " }"@
}

/// The label of an optional text, `N/A` when there is none.
pub open spec fn or_na(o: Option<String>) -> Seq<char> {
    match o {
        Some(s) => s@,
        None => "N/A"@,
    }
}

/// The lines of a file tree: each node after `indent`, with its size in
/// whole mebibytes when it has one, then its children indented two more
/// spaces.
pub open spec fn tree_text(v: NodeView, indent: Seq<char>) -> Seq<char>
    decreases v,
{
    indent + v.name + match v.size {
        Some(s) => " ("@ + mib(s as nat) + " MB)"@,
        None => ""@,
    } + "\n"@ + tree_text_all(v.children, indent + "  "@)
}

pub open spec fn tree_text_all(s: Seq<NodeView>, indent: Seq<char>) -> Seq<char>
    decreases s,
{
    if s.len() == 0 {
        Seq::<char>::empty()
    } else {
        tree_text_all(s.drop_last(), indent) + tree_text(s.last(), indent)
    }
}

/// `depth` levels of indentation.
pub open spec fn indent_of(depth: nat) -> Seq<char> {
    Seq::new(2 * depth, |i: int| ' ')
}

// ---------------------------------------------------------------------------
// Loops over items
// ---------------------------------------------------------------------------

fn put_indent(out: &mut String, depth: usize)
    ensures
        final(out)@ == old(out)@ + indent_of(depth as nat),
{
    let ghost start = out@;
    let mut k: usize = 0;
    while k < depth
        invariant
            k <= depth,
            out@ == start + indent_of(k as nat),
        decreases depth - k,
    {
        out.append("  ");
        proof {
            reveal_strlit("  ");
            assert(start + indent_of((k + 1) as nat) =~= start + indent_of(k as nat) + "  "@);
        }
        k += 1;
    }
}

fn put_tree(node: &FileTreeNode, indent: &String, out: &mut String)
    ensures
        final(out)@ == old(out)@ + tree_text(tview(*node), indent@),
    decreases node,
{
    let ghost start = out@;
    put(out, indent.as_str());
    put(out, node.name.as_str());
    let ghost named = out@;
    let ghost size_part = match node.size {
        Some(s) => " ("@ + mib(s as nat) + " MB)"@,
        None => ""@,
    };
    match node.size {
        Some(s) => {
            put(out, " (");
            put_mib(out, s);
            put(out, " MB)");
            assert(out@ =~= named + size_part);
        },
        None => {
            proof {
                reveal_strlit("");
            }
            assert(out@ =~= named + size_part);
        },
    }
    put(out, "\n");
    assert(out@ =~= start + (indent@ + node.name@ + size_part + "\n"@));
    let mut inner = indent.clone();
    inner.append("  ");
    let ghost mid = out@;
    let ghost c = node.children@;
    let mut i: usize = 0;
    while i < node.children.len()
        invariant
            i <= c.len(),
            c == node.children@,
            inner@ == indent@ + "  "@,
            out@ == mid + tree_text_all(views_of(c.take(i as int)), inner@),
        decreases c.len() - i,
    {
        proof {
            assert(c.take(i + 1).drop_last() =~= c.take(i as int));
            assert(c.take(i + 1).last() == c[i as int]);
            assert(views_of(c.take(i + 1)).drop_last() == views_of(c.take(i as int)));
            assert(views_of(c.take(i + 1)).last() == tview(c[i as int]));
        }
        put_tree(&node.children[i], &inner, out);
        i += 1;
    }
    proof {
        assert(c.take(c.len() as int) =~= c);
        let v = tview(*node);
        assert(out@ =~= start + tree_text(v, indent@));
    }
}

/// The text of a file tree at `depth` levels of indentation (two spaces
/// each).
pub fn tree_node_text(node: &FileTreeNode, depth: usize) -> (r: String)
    ensures
        r@ == tree_text(tview(*node), indent_of(depth as nat)),
{
    let mut indent = String::new();
    put_indent(&mut indent, depth);
    let mut out = String::new();
    put_tree(node, &indent, &mut out);
    out
}

// ---------------------------------------------------------------------------
// Whole reports
// ---------------------------------------------------------------------------

/// `r` prints `text` on standard output.
pub open spec fn stdout_is(r: Report, text: Seq<char>) -> bool {
    r matches Report::Stdout(t) && t@ == text
}

/// `r` prints `text` on standard error.
pub open spec fn stderr_is(r: Report, text: Seq<char>) -> bool {
    r matches Report::Stderr(t) && t@ == text
}

/// The summed sizes of the entries.
pub open spec fn total_sizes(s: Seq<DownloadMetadata>) -> nat
    decreases s.len(),
{
    if s.len() == 0 {
        0
    } else {
        total_sizes(s.drop_last()) + s.last().total_size as nat
    }
}

/// The listed files, at most ten by name, else the first five and a count
/// of the rest.
pub open spec fn summary_rows(files: Seq<Seq<char>>) -> Seq<char> {
    if files.len() <= 10 {
        concat(files.map_values(|f: Seq<char>| name_row(f)))
    } else {
        concat(files.take(5).map_values(|f: Seq<char>| name_row(f))) + line(
            "  ... and "@ + decimal((files.len() - 5) as nat) + " more"@,
        )
    }
}

/// The display tree of a listing.
pub open spec fn listing_tree(files: Seq<RepoFile>) -> NodeView {
    vsized(sort_tree(built(files)))
}

pub open spec fn strings_view(v: Seq<String>) -> Seq<Seq<char>> {
    v.map_values(|s: String| s@)
}

fn copy_lfs(l: &Option<LfsInfo>) -> (r: Option<LfsInfo>)
    ensures
        r == *l,
{
    match l {
        Some(x) => Some(LfsInfo { oid: x.oid.clone(), size: x.size, pointer_size: x.pointer_size }),
        None => None,
    }
}

pub(crate) fn copy_repo_files(v: &Vec<RepoFile>) -> (r: Vec<RepoFile>)
    ensures
        r@ == v@,
{
    let mut r: Vec<RepoFile> = Vec::new();
    let mut i: usize = 0;
    while i < v.len()
        invariant
            i <= v@.len(),
            r@ == v@.take(i as int),
        decreases v.len() - i,
    {
        r.push(RepoFile { rfilename: v[i].rfilename.clone(), size: v[i].size, lfs: copy_lfs(&v[i].lfs) });
        proof {
            assert(v@.take(i + 1) =~= v@.take(i as int).push(v@[i as int]));
        }
        i += 1;
    }
    assert(v@.take(v@.len() as int) =~= v@);
    r
}

fn put_or_na(out: &mut String, o: &Option<String>)
    ensures
        final(out)@ == old(out)@ + or_na(*o),
{
    match o {
        Some(t) => put(out, t.as_str()),
        None => put(out, "N/A"),
    }
}

fn put_quoted_name(out: &mut String, j: usize, f: &QuantizationInfo)
    ensures
        final(out)@ == old(out)@ + quoted_name(j as int, *f),
{
    proof {
        reveal_strlit("");
    }
    let ghost start = out@;
    if j > 0 {
        put(out, ", ");
    }
    let ghost sep = out@;
    put(out, "\"");
    put(out, f.filename.as_str());
    put(out, "\"");
    assert(sep =~= start + (if j > 0 {
        ", "@
    } else {
        ""@
    }));
    assert(out@ =~= start + quoted_name(j as int, *f));
}

fn put_quoted_names(out: &mut String, files: &Vec<QuantizationInfo>)
    ensures
        final(out)@ == old(out)@ + quoted_names(files@),
{
    let ghost start = out@;
    let ghost parts = Seq::new(files@.len(), |j: int| quoted_name(j, files@[j]));
    let mut j: usize = 0;
    while j < files.len()
        invariant
            j <= files@.len(),
            parts == Seq::new(files@.len(), |j: int| quoted_name(j, files@[j])),
            out@ == start + concat(parts.take(j as int)),
        decreases files.len() - j,
    {
        proof {
            lemma_concat_step(parts, j as int);
        }
        put_quoted_name(out, j, &files[j]);
        j += 1;
    }
    proof {
        lemma_concat_all(parts);
    }
}

fn put_json_group(out: &mut String, i: usize, g: &QuantizationGroup, close: &str)
    ensures
        final(out)@ == old(out)@ + json_group(i as int, *g, close@),
{
    proof {
        reveal_strlit("");
    }
    let ghost start = out@;
    if i > 0 {
        put(out, ",\n");
    }
    let ghost sep = out@;
    put(out, "    {\n");
    put(out, "      \"quant_type\": \"");
    put(out, g.quant_type.as_str());
    put(out, "\",\n");
    put(out, "      \"total_size\": ");
    put_dec(out, g.total_size);
    put(out, ",\n");
    put(out, "      \"file_count\": ");
    put_dec(out, g.files.len() as u64);
    put(out, "\n");
    put(out, "      \"files\": [");
    put_quoted_names(out, &g.files);
    put(out, "]");
    put(out, close);
    put(out, "    }");
    assert(sep =~= start + (if i > 0 {
        ",\n"@
    } else {
        ""@
    }));
    assert(out@ =~= start + json_group(i as int, *g, close@));
}

fn put_json_groups(out: &mut String, groups: &[QuantizationGroup], close: &str)
    ensures
        final(out)@ == old(out)@ + json_groups(groups@, close@),
{
    let ghost start = out@;
    let ghost parts = Seq::new(groups@.len(), |i: int| json_group(i, groups@[i], close@));
    let mut i: usize = 0;
    while i < groups.len()
        invariant
            i <= groups@.len(),
            parts == Seq::new(groups@.len(), |i: int| json_group(i, groups@[i], close@)),
            out@ == start + concat(parts.take(i as int)),
        decreases groups.len() - i,
    {
        proof {
            lemma_concat_step(parts, i as int);
        }
        put_json_group(out, i, &groups[i], close);
        i += 1;
    }
    proof {
        lemma_concat_all(parts);
    }
}

fn put_name_rows(out: &mut String, names: &[String], count: usize)
    requires
        count <= names@.len(),
    ensures
        final(out)@ == old(out)@ + concat(strings_view(names@).take(count as int).map_values(|f: Seq<char>| name_row(f))),
{
    let ghost start = out@;
    let ghost parts = strings_view(names@).take(count as int).map_values(|f: Seq<char>| name_row(f));
    let mut i: usize = 0;
    while i < count
        invariant
            i <= count <= names@.len(),
            parts == strings_view(names@).take(count as int).map_values(|f: Seq<char>| name_row(f)),
            out@ == start + concat(parts.take(i as int)),
        decreases count - i,
    {
        proof {
            lemma_concat_step(parts, i as int);
        }
        let ghost before = out@;
        put(out, "  - ");
        put(out, names[i].as_str());
        put(out, "\n");
        assert(out@ =~= before + parts[i as int]);
        i += 1;
    }
    proof {
        lemma_concat_all(parts);
    }
}

fn put_table_group(out: &mut String, g: &QuantizationGroup)
    ensures
        final(out)@ == old(out)@ + table_group(*g),
{
    proof {
    reveal_strlit("");
    }
    let ghost before = out@;
    put(out, "  ");
    put(out, g.quant_type.as_str());
    put(out, " (");
    put_size(out, g.total_size);
    put(out, " total, ");
    put_dec(out, g.files.len() as u64);
    put(out, " file");
    if g.files.len() != 1 {
        put(out, "s");
    }
    put(out, ")");
    put(out, "\n");
    let ghost head = out@;
    assert(head =~= before + line(
        "  "@ + g.quant_type@ + " ("@ + size_text(g.total_size as nat) + " total, "@ + decimal(g.files@.len()) + " file"@
            + plural(g.files@.len()) + ")"@,
    ));
    let ghost rows = g.files@.map_values(|f: QuantizationInfo| table_file_row(f));
    let mut j: usize = 0;
    while j < g.files.len()
        invariant
            j <= g.files@.len(),
            rows == g.files@.map_values(|f: QuantizationInfo| table_file_row(f)),
            out@ == head + concat(rows.take(j as int)),
        decreases g.files.len() - j,
    {
        proof {
            lemma_concat_step(rows, j as int);
        }
        let ghost b2 = out@;
        put(out, "    - ");
        put(out, g.files[j].filename.as_str());
        put(out, " (");
        put_size(out, g.files[j].size);
        put(out, ")");
        put(out, "\n");
        assert(out@ =~= b2 + rows[j as int]);
        j += 1;
    }
    proof {
        lemma_concat_all(rows);
    }
    put(out, "\n");
    assert(out@ =~= before + table_group(*g));
}

/// The files of a listing in the hand-written JSON.
pub open spec fn json_files(files: Seq<RepoFile>) -> Seq<char> {
    concat(Seq::new(files.len(), |i: int| json_file(i, files[i].rfilename@, files[i].size)))
}

proof fn lemma_total_sizes_prefix(s: Seq<DownloadMetadata>, k: int)
    requires
        0 <= k <= s.len(),
    ensures
        total_sizes(s.take(k)) <= total_sizes(s),
    decreases s.len(),
{
    if k < s.len() {
        lemma_total_sizes_prefix(s.drop_last(), k);
        assert(s.drop_last().take(k) =~= s.take(k));
    } else {
        assert(s.take(k) =~= s);
    }
}

fn put_json_file(out: &mut String, i: usize, f: &RepoFile)
    ensures
        final(out)@ == old(out)@ + json_file(i as int, f.rfilename@, f.size),
{
    proof {
        reveal_strlit("");
    }
    let ghost start = out@;
    if i > 0 {
        put(out, ",\n");
    }
    let ghost sep = out@;
    put(out, "    { \"filename\": \"");
    put(out, f.rfilename.as_str());
    put(out, "\", \"size\": ");
    let n: u64 = match f.size {
        Some(s) => s,
        None => 0,
    };
    put_dec(out, n);
    put(out, " }");
    assert(sep =~= start + (if i > 0 {
        ",\n"@
    } else {
        ""@
    }));
    assert(out@ =~= start + json_file(i as int, f.rfilename@, f.size));
}

fn put_json_files(out: &mut String, files: &Vec<RepoFile>)
    ensures
        final(out)@ == old(out)@ + json_files(files@),
{
    let ghost start = out@;
    let ghost parts = Seq::new(files@.len(), |i: int| json_file(i, files@[i].rfilename@, files@[i].size));
    let mut i: usize = 0;
    while i < files.len()
        invariant
            i <= files@.len(),
            parts == Seq::new(files@.len(), |i: int| json_file(i, files@[i].rfilename@, files@[i].size)),
            out@ == start + concat(parts.take(i as int)),
        decreases files.len() - i,
    {
        proof {
            lemma_concat_step(parts, i as int);
        }
        put_json_file(out, i, &files[i]);
        i += 1;
    }
    proof {
        lemma_concat_all(parts);
    }
}

fn put_listing_group(out: &mut String, g: &QuantizationGroup)
    ensures
        final(out)@ == old(out)@ + listing_group(*g),
{
    let ghost before = out@;
    put(out, "  - ");
    put(out, g.quant_type.as_str());
    put(out, " (");
    put_dec(out, g.files.len() as u64);
    put(out, " files, ");
    put_mib(out, g.total_size);
    put(out, " MB total)");
    put(out, "\n");
    let ghost head = out@;
    let ghost rows = g.files@.map_values(|f: QuantizationInfo| listing_file_row(f));
    let mut j: usize = 0;
    while j < g.files.len()
        invariant
            j <= g.files@.len(),
            rows == g.files@.map_values(|f: QuantizationInfo| listing_file_row(f)),
            out@ == head + concat(rows.take(j as int)),
        decreases g.files.len() - j,
    {
        proof {
            lemma_concat_step(rows, j as int);
        }
        let ghost b2 = out@;
        put(out, "      - ");
        put(out, g.files[j].filename.as_str());
        put(out, " (");
        put_mib(out, g.files[j].size);
        put(out, " MB)");
        put(out, "\n");
        assert(out@ =~= b2 + rows[j as int]);
        j += 1;
    }
    proof {
        lemma_concat_all(rows);
    }
    assert(out@ =~= before + listing_group(*g));
}

/// The width of the id column: the longest id in UTF-8 bytes, at most 60
/// (40 when there is no model).
pub open spec fn id_column(models: Seq<ModelInfo>) -> nat
    decreases models.len(),
{
    if models.len() == 0 {
        40
    } else {
        let here = if utf8_len(models.last().id@) < 60 { utf8_len(models.last().id@) } else { 60 };
        if models.len() == 1 || here > id_column(models.drop_last()) {
            here
        } else {
            id_column(models.drop_last())
        }
    }
}

/// `s` left-aligned in `w` cells (`{:<w$}`), filled with `fill`.
pub open spec fn left_aligned(s: Seq<char>, w: nat, fill: char) -> Seq<char> {
    if s.len() >= w {
        s
    } else {
        s + Seq::new((w - s.len()) as nat, |i: int| fill)
    }
}

pub open spec fn search_table_header(w: nat) -> Seq<char> {
    line(left_aligned("Model"@, w, ' ') + " |    Downloads |      Likes | Last Modified"@)
}

pub open spec fn search_table_rule(w: nat) -> Seq<char> {
    line(left_aligned("----"@, w, '-') + "-+--------------+------------+---------------"@)
}

pub open spec fn last_modified_text(m: ModelInfo) -> Seq<char> {
    match m.last_modified {
        Some(t) => t@,
        None => "N/A"@,
    }
}

pub open spec fn search_table_row(m: ModelInfo, w: nat) -> Seq<char> {
    line(left_aligned(m.id@, w, ' ') + " | "@ + right_aligned(decimal(m.downloads as nat), 12) + " | "@
        + right_aligned(decimal(m.likes as nat), 10) + " | "@ + last_modified_text(m))
}

/// The timed search report: a count line with the elapsed time as given,
/// then a table of the models (or a note that there is none).
pub open spec fn search_table_text(models: Seq<ModelInfo>, elapsed: Seq<char>) -> Seq<char> {
    let head = line("Found "@ + decimal(models.len()) + " models in "@ + elapsed + "s:"@) + line(""@);
    if models.len() == 0 {
        head + line("No models found matching your criteria."@)
    } else {
        let w = id_column(models);
        head + search_table_header(w) + search_table_rule(w) + concat(
            models.map_values(|m: ModelInfo| search_table_row(m, w)),
        )
    }
}

/// UTF-8 length of `s`, capped at 60.
pub(crate) fn utf8_len_capped(s: &[char]) -> (r: usize)
    ensures
        r == (if utf8_len(s@) < 60 { utf8_len(s@) } else { 60 }),
{
    let mut acc: usize = 0;
    let mut i: usize = 0;
    while i < s.len()
        invariant
            i <= s@.len(),
            acc == utf8_len(s@.take(i as int)),
            acc <= 60,
        decreases s.len() - i,
    {
        let c = s[i];
        let w: usize = if (c as u32) < 0x80 {
            1
        } else if (c as u32) < 0x800 {
            2
        } else if (c as u32) < 0x10000 {
            3
        } else {
            4
        };
        proof {
            assert(s@.take(i + 1).drop_last() =~= s@.take(i as int));
            assert(s@.take(i + 1).last() == c);
        }
        if acc + w >= 60 {
            proof {
                lemma_utf8_prefix(s@, i + 1);
            }
            return 60;
        }
        acc = acc + w;
        i += 1;
    }
    proof {
        assert(s@.take(s@.len() as int) =~= s@);
    }
    acc
}

pub(crate) fn push_left(out: &mut Vec<char>, s: &[char], w: usize, fill: char)
    ensures
        final(out)@ == old(out)@ + left_aligned(s@, w as nat, fill),
{
    let ghost start = out@;
    let mut j: usize = 0;
    while j < s.len()
        invariant
            j <= s@.len(),
            out@ == start + s@.take(j as int),
        decreases s.len() - j,
    {
        out.push(s[j]);
        proof {
            assert(s@.take(j + 1) =~= s@.take(j as int).push(s@[j as int]));
        }
        j += 1;
    }
    proof {
        assert(s@.take(s@.len() as int) =~= s@);
    }
    if s.len() < w {
        let pad = w - s.len();
        let ghost mid = out@;
        let mut k: usize = 0;
        while k < pad
            invariant
                k <= pad,
                out@ == mid + Seq::new(k as nat, |i: int| fill),
            decreases pad - k,
        {
            out.push(fill);
            k += 1;
            assert(out@ =~= mid + Seq::new(k as nat, |i: int| fill));
        }
    }
    assert(out@ =~= start + left_aligned(s@, w as nat, fill));
}

fn id_column_of(models: &[ModelInfo]) -> (r: usize)
    ensures
        r == id_column(models@),
        r <= 60 || models@.len() == 0,
{
    let mut w: usize = 40;
    let mut i: usize = 0;
    while i < models.len()
        invariant
            i <= models@.len(),
            i == 0 ==> w == 40,
            i > 0 ==> w == id_column(models@.take(i as int)) && w <= 60,
        decreases models.len() - i,
    {
        let cs = to_chars(models[i].id.as_str());
        let here = utf8_len_capped(cs.as_slice());
        proof {
            assert(models@.take(i + 1).drop_last() =~= models@.take(i as int));
            assert(models@.take(i + 1).last() == models@[i as int]);
        }
        if i == 0 || here > w {
            w = here;
        }
        i += 1;
    }
    proof {
        assert(models@.take(models@.len() as int) =~= models@);
    }
    w
}

fn search_table_row_text(m: &ModelInfo, w: usize) -> (r: Vec<char>)
    ensures
        r@ == search_table_row(*m, w as nat),
{
    let mut out: Vec<char> = Vec::new();
    let id = to_chars(m.id.as_str());
    push_left(&mut out, id.as_slice(), w, ' ');
    let bar = to_chars(" | ");
    let mut dl: Vec<char> = Vec::new();
    push_decimal(&mut dl, m.downloads);
    let mut lk: Vec<char> = Vec::new();
    push_decimal(&mut lk, m.likes);
    push_seq(&mut out, bar.as_slice());
    push_right_aligned(&mut out, dl.as_slice(), 12);
    push_seq(&mut out, bar.as_slice());
    push_right_aligned(&mut out, lk.as_slice(), 10);
    push_seq(&mut out, bar.as_slice());
    let lm = match &m.last_modified {
        Some(t) => to_chars(t.as_str()),
        None => to_chars("N/A"),
    };
    push_seq(&mut out, lm.as_slice());
    out.push('\n');
    proof {
        reveal_strlit("\n");
    }
    assert(out@ =~= search_table_row(*m, w as nat));
    out
}

fn push_seq(out: &mut Vec<char>, s: &[char])
    ensures
        final(out)@ == old(out)@ + s@,
{
    let ghost start = out@;
    let mut j: usize = 0;
    while j < s.len()
        invariant
            j <= s@.len(),
            out@ == start + s@.take(j as int),
        decreases s.len() - j,
    {
        out.push(s[j]);
        proof {
            assert(s@.take(j + 1) =~= s@.take(j as int).push(s@[j as int]));
        }
        j += 1;
    }
    proof {
        assert(s@.take(s@.len() as int) =~= s@);
    }
}

impl ProgressReporter {
    /// The models a search found, one per line with their counts.
    pub fn report_search(&self, models: &[ModelInfo]) -> (r: Report)
        ensures
            self.json() ==> r == Report::Json,
            !self.json() ==> stdout_is(r, line(
                "Found "@ + decimal(models@.len()) + " models:"@,
            ) + concat(models@.map_values(|m: ModelInfo| search_row(m)))),
    {
        if self.is_json() {
            return Report::Json;
        }
        let mut out = String::new();
        put(&mut out, "Found ");
        put_dec(&mut out, models.len() as u64);
        put(&mut out, " models:");
        put(&mut out, "\n");
        let ghost start = out@;
        let ghost parts = models@.map_values(|m: ModelInfo| search_row(m));
        let mut i: usize = 0;
        while i < models.len()
            invariant
                i <= models@.len(),
                parts == models@.map_values(|m: ModelInfo| search_row(m)),
                out@ == start + concat(parts.take(i as int)),
            decreases models.len() - i,
        {
            proof {
                lemma_concat_step(parts, i as int);
            }
            let ghost before = out@;
            let m = &models[i];
            put(&mut out, "  - ");
            put(&mut out, m.id.as_str());
            put(&mut out, " (");
            put_dec(&mut out, m.downloads);
            put(&mut out, " downloads, ");
            put_dec(&mut out, m.likes);
            put(&mut out, " likes)");
            put(&mut out, "\n");
            assert(out@ =~= before + parts[i as int]);
            i += 1;
        }
        proof {
            lemma_concat_all(parts);
        }
        Report::Stdout(out)
    }

    /// The models a search found with the time it took, `elapsed` being
    /// the seconds as they are to be shown: a count line, then a table of
    /// id, downloads, likes and last modification.
    pub fn report_search_with_timing(&self, models: &[ModelInfo], elapsed: &str) -> (r: Report)
        ensures
            self.json() ==> r == Report::Json,
            !self.json() ==> stdout_is(r, search_table_text(models@, elapsed@)),
    {
        if self.is_json() {
            return Report::Json;
        }
        let mut out = String::new();
        put(&mut out, "Found ");
        put_dec(&mut out, models.len() as u64);
        put(&mut out, " models in ");
        put(&mut out, elapsed);
        put(&mut out, "s:\n\n");
        proof {
            reveal_strlit("s:\n\n");
            reveal_strlit("s:");
            reveal_strlit("\n");
            reveal_strlit("");
        }
        if models.len() == 0 {
            put(&mut out, "No models found matching your criteria.\n");
            proof {
                reveal_strlit("No models found matching your criteria.\n");
                reveal_strlit("No models found matching your criteria.");
            }
            assert(out@ =~= search_table_text(models@, elapsed@));
            return Report::Stdout(out);
        }
        let w = id_column_of(models);
        let mut head: Vec<char> = Vec::new();
        let model = to_chars("Model");
        push_left(&mut head, model.as_slice(), w, ' ');
        let rest = to_chars(" |    Downloads |      Likes | Last Modified\n");
        push_seq(&mut head, rest.as_slice());
        let dashes = to_chars("----");
        push_left(&mut head, dashes.as_slice(), w, '-');
        let rule = to_chars("-+--------------+------------+---------------\n");
        push_seq(&mut head, rule.as_slice());
        proof {
            reveal_strlit(" |    Downloads |      Likes | Last Modified\n");
            reveal_strlit(" |    Downloads |      Likes | Last Modified");
            reveal_strlit("-+--------------+------------+---------------\n");
            reveal_strlit("-+--------------+------------+---------------");
        }
        assert(head@ =~= search_table_header(w as nat) + search_table_rule(w as nat));
        push_chars(&mut out, head.as_slice());
        let ghost start = out@;
        let ghost parts = models@.map_values(|m: ModelInfo| search_table_row(m, w as nat));
        let mut i: usize = 0;
        while i < models.len()
            invariant
                i <= models@.len(),
                parts == models@.map_values(|m: ModelInfo| search_table_row(m, w as nat)),
                out@ == start + concat(parts.take(i as int)),
            decreases models.len() - i,
        {
            proof {
                lemma_concat_step(parts, i as int);
            }
            let row = search_table_row_text(&models[i], w);
            push_chars(&mut out, row.as_slice());
            i += 1;
        }
        proof {
            lemma_concat_all(parts);
        }
        assert(out@ =~= search_table_text(models@, elapsed@));
        Report::Stdout(out)
    }

    /// A download starting, with its size in whole mebibytes.
    pub fn report_download_start(&self, filename: &str, total_size: u64) -> (r: Report)
        ensures
            self.json() ==> r == Report::Json,
            !self.json() ==> stdout_is(r, line(
                "Downloading: "@ + filename@ + " ("@ + mib(total_size as nat) + " MB)"@,
            )),
    {
        if self.is_json() {
            return Report::Json;
        }
        let mut out = String::new();
        put(&mut out, "Downloading: ");
        put(&mut out, filename);
        put(&mut out, " (");
        put_mib(&mut out, total_size);
        put(&mut out, " MB)");
        put(&mut out, "\n");
        Report::Stdout(out)
    }

    /// A finished download.
    pub fn report_download_complete(&self, filename: &str) -> (r: Report)
        ensures
            self.json() ==> r == Report::Json,
            !self.json() ==> stdout_is(r, "\n✓ Complete: "@ + filename@ + "\n"@),
    {
        if self.is_json() {
            return Report::Json;
        }
        let mut out = String::new();
        put(&mut out, "\n✓ Complete: ");
        put(&mut out, filename);
        put(&mut out, "\n");
        Report::Stdout(out)
    }

    /// An error, on standard error.
    pub fn report_error(&self, error: &str) -> (r: Report)
        ensures
            self.json() ==> r == Report::Json,
            !self.json() ==> stderr_is(r, line("Error: "@ + error@)),
    {
        if self.is_json() {
            return Report::Json;
        }
        let mut out = String::new();
        put(&mut out, "Error: ");
        put(&mut out, error);
        put(&mut out, "\n");
        Report::Stderr(out)
    }

    /// A message as it is.
    pub fn report_info(&self, message: &str) -> (r: Report)
        ensures
            self.json() ==> r == Report::Json,
            !self.json() ==> stdout_is(r, line(message@)),
    {
        if self.is_json() {
            return Report::Json;
        }
        let mut out = String::new();
        put(&mut out, message);
        put(&mut out, "\n");
        Report::Stdout(out)
    }

    /// The downloads that were resumed, by file name.
    pub fn report_resume(&self, resumed: &[DownloadMetadata]) -> (r: Report)
        ensures
            self.json() ==> r == Report::Json,
            !self.json() && resumed@.len() == 0 ==> stdout_is(r, line(
                "No incomplete downloads to resume"@,
            )),
            !self.json() && resumed@.len() > 0 ==> stdout_is(r, line(
                "Resumed "@ + decimal(resumed@.len()) + " downloads:"@,
            ) + concat(resumed@.map_values(|d: DownloadMetadata| name_row(d.filename@)))),
    {
        if self.is_json() {
            return Report::Json;
        }
        if resumed.len() == 0 {
            return self.report_info("No incomplete downloads to resume");
        }
        let mut out = String::new();
        put(&mut out, "Resumed ");
        put_dec(&mut out, resumed.len() as u64);
        put(&mut out, " downloads:");
        put(&mut out, "\n");
        let ghost start = out@;
        let ghost parts = resumed@.map_values(|d: DownloadMetadata| name_row(d.filename@));
        let mut i: usize = 0;
        while i < resumed.len()
            invariant
                i <= resumed@.len(),
                parts == resumed@.map_values(|d: DownloadMetadata| name_row(d.filename@)),
                out@ == start + concat(parts.take(i as int)),
            decreases resumed.len() - i,
        {
            proof {
                lemma_concat_step(parts, i as int);
            }
            let ghost before = out@;
            put(&mut out, "  - ");
            put(&mut out, resumed[i].filename.as_str());
            put(&mut out, "\n");
            assert(out@ =~= before + parts[i as int]);
            i += 1;
        }
        proof {
            lemma_concat_all(parts);
        }
        Report::Stdout(out)
    }

    /// The files queued for download and their total size.
    pub fn report_download_summary(&self, files: &[String], total_size: u64) -> (r: Report)
        ensures
            self.json() ==> r == Report::Json,
            !self.json() ==> stdout_is(r, "Download Summary:\n"@ + line(
                "  Files: "@ + decimal(files@.len()),
            ) + line("  Total Size: "@ + size_text(total_size as nat)) + "\n"@ + summary_rows(strings_view(files@))
                + "\n"@),
    {
        if self.is_json() {
            return Report::Json;
        }
        let mut out = String::new();
        put(&mut out, "Download Summary:\n");
        put(&mut out, "  Files: ");
        put_dec(&mut out, files.len() as u64);
        put(&mut out, "\n");
        put(&mut out, "  Total Size: ");
        put_size(&mut out, total_size);
        put(&mut out, "\n");
        put(&mut out, "\n");
        let ghost start = out@;
        assert(start =~= "Download Summary:\n"@ + line("  Files: "@ + decimal(files@.len())) + line(
            "  Total Size: "@ + size_text(total_size as nat),
        ) + "\n"@);
        let n = files.len();
        proof {
            assert(strings_view(files@).take(n as int) =~= strings_view(files@));
        }
        if n <= 10 {
            put_name_rows(&mut out, files, n);
        } else {
            put_name_rows(&mut out, files, 5);
            put(&mut out, "  ... and ");
            put_dec(&mut out, (n - 5) as u64);
            put(&mut out, " more");
            put(&mut out, "\n");
        }
        assert(out@ =~= start + summary_rows(strings_view(files@)));
        put(&mut out, "\n");
        assert(out@ =~= start + summary_rows(strings_view(files@)) + "\n"@);
        Report::Stdout(out)
    }

    /// The plan of a dry run: the kind of model, the files in order, their
    /// total size and the output directory.
    pub fn report_dry_run_summary(&self, files: &[String], total_size: u64, output_dir: &str, is_gguf: bool) -> (r: Report)
        ensures
            self.json() ==> r == Report::Json,
            !self.json() ==> stdout_is(r, "Download Plan:\n"@ + line(
                "  Model type: "@ + if is_gguf {
                    "GGUF"@
                } else {
                    "Non-GGUF"@
                },
            ) + line("  Files to download: "@ + decimal(files@.len())) + line(
                "  Total size: "@ + size_text(total_size as nat),
            ) + line("  Output directory: "@ + output_dir@) + "\n"@ + "Files:\n"@ + concat(
                Seq::new(files@.len(), |i: int| numbered_row(i, files@[i]@)),
            ) + "\n"@ + "Run without --dry-run to execute the download.\n"@),
    {
        if self.is_json() {
            return Report::Json;
        }
        let mut out = String::new();
        put(&mut out, "Download Plan:\n");
        put(&mut out, "  Model type: ");
        if is_gguf {
            put(&mut out, "GGUF");
        } else {
            put(&mut out, "Non-GGUF");
        }
        put(&mut out, "\n");
        put(&mut out, "  Files to download: ");
        put_dec(&mut out, files.len() as u64);
        put(&mut out, "\n");
        put(&mut out, "  Total size: ");
        put_size(&mut out, total_size);
        put(&mut out, "\n");
        put(&mut out, "  Output directory: ");
        put(&mut out, output_dir);
        put(&mut out, "\n");
        put(&mut out, "\n");
        put(&mut out, "Files:\n");
        let ghost start = out@;
        assert(start =~= "Download Plan:\n"@ + line(
            "  Model type: "@ + if is_gguf {
                "GGUF"@
            } else {
                "Non-GGUF"@
            },
        ) + line("  Files to download: "@ + decimal(files@.len())) + line(
            "  Total size: "@ + size_text(total_size as nat),
        ) + line("  Output directory: "@ + output_dir@) + "\n"@ + "Files:\n"@);
        let ghost parts = Seq::new(files@.len(), |i: int| numbered_row(i, files@[i]@));
        let mut i: usize = 0;
        while i < files.len()
            invariant
                i <= files@.len(),
                parts == Seq::new(files@.len(), |i: int| numbered_row(i, files@[i]@)),
                out@ == start + concat(parts.take(i as int)),
            decreases files.len() - i,
        {
            proof {
                lemma_concat_step(parts, i as int);
            }
            let ghost before = out@;
            put(&mut out, "  ");
            put_dec(&mut out, (i as u64) + 1);
            put(&mut out, ". ");
            put(&mut out, files[i].as_str());
            put(&mut out, "\n");
            assert(out@ =~= before + parts[i as int]);
            i += 1;
        }
        proof {
            lemma_concat_all(parts);
        }
        put(&mut out, "\n");
        put(&mut out, "Run without --dry-run to execute the download.\n");
        assert(out@ =~= start + concat(parts) + "\n"@ + "Run without --dry-run to execute the download.\n"@);
        Report::Stdout(out)
    }

    /// Nothing to resume.
    pub fn report_no_incomplete(&self) -> (r: Report)
        ensures
            self.json() ==> r == Report::Json,
            !self.json() ==> stdout_is(r, "No incomplete downloads found.\n"@),
    {
        if self.is_json() {
            return Report::Json;
        }
        Report::Stdout(String::from_str("No incomplete downloads found.\n"))
    }

    /// The quantization groups with their files and sizes (text in either
    /// mode).
    pub fn report_quantizations_table(&self, quantizations: &[QuantizationGroup]) -> (r: Report)
        ensures
            stdout_is(r, "Available Quantizations:\n"@ + "\n"@ + concat(
                quantizations@.map_values(|g: QuantizationGroup| table_group(g)),
            )),
    {
        let mut out = String::new();
        put(&mut out, "Available Quantizations:\n");
        put(&mut out, "\n");
        let ghost start = out@;
        let ghost parts = quantizations@.map_values(|g: QuantizationGroup| table_group(g));
        let mut i: usize = 0;
        while i < quantizations.len()
            invariant
                i <= quantizations@.len(),
                parts == quantizations@.map_values(|g: QuantizationGroup| table_group(g)),
                out@ == start + concat(parts.take(i as int)),
            decreases quantizations.len() - i,
        {
            proof {
                lemma_concat_step(parts, i as int);
            }
            put_table_group(&mut out, &quantizations[i]);
            i += 1;
        }
        proof {
            lemma_concat_all(parts);
        }
        Report::Stdout(out)
    }

    /// The files of a repository as a tree, after its ID, pipeline and
    /// file count (text in either mode).
    pub fn report_file_tree(&self, metadata: &ModelMetadata) -> (r: Report)
        requires
            vtotal(built(metadata.siblings@)) <= u64::MAX,
        ensures
            stdout_is(r, "Model Files:\n"@ + "\n"@ + line("  Model ID: "@ + metadata.model_id@) + line(
                "  Pipeline: "@ + or_na(metadata.pipeline_tag),
            ) + line("  Files: "@ + decimal(metadata.siblings@.len())) + "\n"@ + tree_text(
                listing_tree(metadata.siblings@),
                ""@,
            )),
    {
        let mut out = String::new();
        put(&mut out, "Model Files:\n");
        put(&mut out, "\n");
        put(&mut out, "  Model ID: ");
        put(&mut out, metadata.model_id.as_str());
        put(&mut out, "\n");
        put(&mut out, "  Pipeline: ");
        put_or_na(&mut out, &metadata.pipeline_tag);
        put(&mut out, "\n");
        put(&mut out, "  Files: ");
        put_dec(&mut out, metadata.siblings.len() as u64);
        put(&mut out, "\n");
        put(&mut out, "\n");
        let ghost head = out@;
        let tree = build_file_tree(copy_repo_files(&metadata.siblings));
        let text = tree_node_text(&tree, 0);
        proof {
            assert(indent_of(0) =~= ""@) by {
                reveal_strlit("");
            }
        }
        put(&mut out, text.as_str());
        assert(head =~= "Model Files:\n"@ + "\n"@ + line("  Model ID: "@ + metadata.model_id@) + line(
            "  Pipeline: "@ + or_na(metadata.pipeline_tag),
        ) + line("  Files: "@ + decimal(metadata.siblings@.len())) + "\n"@);
        assert(out@ =~= head + tree_text(listing_tree(metadata.siblings@), ""@));
        Report::Stdout(out)
    }

    /// A repository as hand-written JSON: its ID, pipeline and kind, then
    /// either its quantization groups or its files (in either mode).
    pub fn report_list_json(&self, quantizations: &[QuantizationGroup], metadata: &ModelMetadata, has_gguf: bool) -> (r: Report)
        ensures
            stdout_is(r, "{\n"@ + line("  \"model_id\": \""@ + metadata.model_id@ + "\","@) + line(
                "  \"pipeline_tag\": \""@ + or_na(metadata.pipeline_tag) + "\","@,
            ) + line("  \"has_gguf\": "@ + (if has_gguf {
                "true"@
            } else {
                "false"@
            }) + ","@) + (if has_gguf {
                "  \"quantizations\": [\n"@ + json_groups(quantizations@, ""@) + "\n"@ + "  ]\n"@
            } else {
                line("  \"file_count\": "@ + decimal(metadata.siblings@.len()) + ","@) + "  \"files\": [\n"@
                    + json_files(metadata.siblings@) + "\n"@ + "  ]\n"@
            }) + "}\n"@),
    {
        let mut out = String::new();
        put(&mut out, "{\n");
        put(&mut out, "  \"model_id\": \"");
        put(&mut out, metadata.model_id.as_str());
        put(&mut out, "\",");
        put(&mut out, "\n");
        put(&mut out, "  \"pipeline_tag\": \"");
        put_or_na(&mut out, &metadata.pipeline_tag);
        put(&mut out, "\",");
        put(&mut out, "\n");
        put(&mut out, "  \"has_gguf\": ");
        if has_gguf {
            put(&mut out, "true");
        } else {
            put(&mut out, "false");
        }
        put(&mut out, ",");
        put(&mut out, "\n");
        let ghost head = out@;
        if has_gguf {
            put(&mut out, "  \"quantizations\": [\n");
            put_json_groups(&mut out, quantizations, "");
            put(&mut out, "\n");
            put(&mut out, "  ]\n");
        } else {
            put(&mut out, "  \"file_count\": ");
            put_dec(&mut out, metadata.siblings.len() as u64);
            put(&mut out, ",");
            put(&mut out, "\n");
            put(&mut out, "  \"files\": [\n");
            put_json_files(&mut out, &metadata.siblings);
            put(&mut out, "\n");
            put(&mut out, "  ]\n");
        }
        assert(head =~= "{\n"@ + line("  \"model_id\": \""@ + metadata.model_id@ + "\","@) + line(
            "  \"pipeline_tag\": \""@ + or_na(metadata.pipeline_tag) + "\","@,
        ) + line("  \"has_gguf\": "@ + (if has_gguf {
            "true"@
        } else {
            "false"@
        }) + ","@));
        let ghost body = out@;
        assert(body =~= head + (if has_gguf {
            "  \"quantizations\": [\n"@ + json_groups(quantizations@, ""@) + "\n"@ + "  ]\n"@
        } else {
            line("  \"file_count\": "@ + decimal(metadata.siblings@.len()) + ","@) + "  \"files\": [\n"@
                + json_files(metadata.siblings@) + "\n"@ + "  ]\n"@
        }));
        put(&mut out, "}\n");
        Report::Stdout(out)
    }

    /// The quantization groups of a model: hand-written JSON in JSON mode;
    /// else each group with its files in whole mebibytes, then the file
    /// tree when there are groups.
    pub fn report_list_quantizations(&self, quantizations: &[QuantizationGroup], metadata: &ModelMetadata) -> (r: Report)
        requires
            !self.json() && quantizations@.len() > 0 ==> vtotal(built(metadata.siblings@)) <= u64::MAX,
        ensures
            self.json() ==> stdout_is(r, "{\n"@ + line("  \"model_id\": \""@ + metadata.model_id@ + "\","@)
                + "  \"quantizations\": [\n"@ + json_groups(quantizations@, "\n"@) + "\n"@ + "  ]\n"@ + "}\n"@),
            !self.json() ==> stdout_is(r, line("Model: "@ + metadata.model_id@) + "\nQuantizations:\n"@ + concat(
                quantizations@.map_values(|g: QuantizationGroup| listing_group(g)),
            ) + if quantizations@.len() > 0 {
                "\nFile Tree:\n"@ + tree_text(listing_tree(metadata.siblings@), ""@)
            } else {
                ""@
            }),
    {
        let mut out = String::new();
        if self.is_json() {
            put(&mut out, "{\n");
            put(&mut out, "  \"model_id\": \"");
            put(&mut out, metadata.model_id.as_str());
            put(&mut out, "\",");
            put(&mut out, "\n");
            put(&mut out, "  \"quantizations\": [\n");
            put_json_groups(&mut out, quantizations, "\n");
            put(&mut out, "\n");
            put(&mut out, "  ]\n");
            put(&mut out, "}\n");
            assert(out@ =~= "{\n"@ + line("  \"model_id\": \""@ + metadata.model_id@ + "\","@)
                + "  \"quantizations\": [\n"@ + json_groups(quantizations@, "\n"@) + "\n"@ + "  ]\n"@ + "}\n"@);
            return Report::Stdout(out);
        }
        put(&mut out, "Model: ");
        put(&mut out, metadata.model_id.as_str());
        put(&mut out, "\n");
        put(&mut out, "\nQuantizations:\n");
        let ghost start = out@;
        let ghost parts = quantizations@.map_values(|g: QuantizationGroup| listing_group(g));
        let mut i: usize = 0;
        while i < quantizations.len()
            invariant
                i <= quantizations@.len(),
                parts == quantizations@.map_values(|g: QuantizationGroup| listing_group(g)),
                out@ == start + concat(parts.take(i as int)),
            decreases quantizations.len() - i,
        {
            proof {
                lemma_concat_step(parts, i as int);
            }
            put_listing_group(&mut out, &quantizations[i]);
            i += 1;
        }
        proof {
            lemma_concat_all(parts);
            reveal_strlit("");
        }
        let ghost listed = out@;
        if quantizations.len() > 0 {
            put(&mut out, "\nFile Tree:\n");
            let tree = build_file_tree(copy_repo_files(&metadata.siblings));
            let text = tree_node_text(&tree, 0);
            proof {
                assert(indent_of(0) =~= ""@);
            }
            put(&mut out, text.as_str());
        }
        assert(out@ =~= listed + if quantizations@.len() > 0 {
            "\nFile Tree:\n"@ + tree_text(listing_tree(metadata.siblings@), ""@)
        } else {
            ""@
        });
        Report::Stdout(out)
    }

    /// The downloads about to resume with their sizes and total.
    pub fn report_resume_summary(&self, incomplete: &[DownloadMetadata]) -> (r: Report)
        requires
            total_sizes(incomplete@) <= u64::MAX,
        ensures
            self.json() ==> r == Report::Json,
            !self.json() ==> stdout_is(r, line(
                "Resuming "@ + decimal(incomplete@.len()) + " download(s) ("@ + size_text(total_sizes(incomplete@))
                    + " total):"@,
            ) + "\n"@ + concat(incomplete@.map_values(|d: DownloadMetadata| sized_row(d.filename@, d.total_size)))
                + "\n"@),
    {
        if self.is_json() {
            return Report::Json;
        }
        let mut total: u64 = 0;
        let mut k: usize = 0;
        while k < incomplete.len()
            invariant
                k <= incomplete@.len(),
                total_sizes(incomplete@) <= u64::MAX,
                total == total_sizes(incomplete@.take(k as int)),
            decreases incomplete.len() - k,
        {
            proof {
                assert(incomplete@.take(k + 1).drop_last() =~= incomplete@.take(k as int));
                lemma_total_sizes_prefix(incomplete@, k + 1);
            }
            total = total + incomplete[k].total_size;
            k += 1;
        }
        proof {
            assert(incomplete@.take(incomplete@.len() as int) =~= incomplete@);
        }
        let mut out = String::new();
        put(&mut out, "Resuming ");
        put_dec(&mut out, incomplete.len() as u64);
        put(&mut out, " download(s) (");
        put_size(&mut out, total);
        put(&mut out, " total):");
        put(&mut out, "\n");
        put(&mut out, "\n");
        let ghost start = out@;
        assert(start =~= line(
            "Resuming "@ + decimal(incomplete@.len()) + " download(s) ("@ + size_text(total_sizes(incomplete@))
                + " total):"@,
        ) + "\n"@);
        let ghost parts = incomplete@.map_values(|d: DownloadMetadata| sized_row(d.filename@, d.total_size));
        let mut i: usize = 0;
        while i < incomplete.len()
            invariant
                i <= incomplete@.len(),
                parts == incomplete@.map_values(|d: DownloadMetadata| sized_row(d.filename@, d.total_size)),
                out@ == start + concat(parts.take(i as int)),
            decreases incomplete.len() - i,
        {
            proof {
                lemma_concat_step(parts, i as int);
            }
            let ghost before = out@;
            put(&mut out, "  - ");
            put(&mut out, incomplete[i].filename.as_str());
            put(&mut out, " (");
            put_size(&mut out, incomplete[i].total_size);
            put(&mut out, ")");
            put(&mut out, "\n");
            assert(out@ =~= before + parts[i as int]);
            i += 1;
        }
        proof {
            lemma_concat_all(parts);
        }
        put(&mut out, "\n");
        assert(out@ =~= start + concat(parts) + "\n"@);
        Report::Stdout(out)
    }
}

} // verus!
