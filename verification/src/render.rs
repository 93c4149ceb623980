//! Text helpers of the interface: name truncation, compact sizes and
//! times, and the column layout of the activity display.

use crate::text::{copy_range, decimal, joined_with, decimal_padded, from_chars, push_decimal, push_decimal_padded, to_chars};
use crate::utils::{div_round_even, div_round_even_u128, f64_of, nearest_f64, GB, KB, MB};
use vstd::prelude::*;

verus! {

/// `name` cut to at most `max` characters with a middle `…`, keeping the
/// tail (a third of the room) that tells multipart names apart.
pub open spec fn truncated_filename(name: Seq<char>, max: nat) -> Seq<char> {
    if max == 0 {
        Seq::<char>::empty()
    } else if name.len() <= max {
        name
    } else if max == 1 {
        seq!['…']
    } else {
        let tail_len = (max - 1) / 3;
        let head_len = max - 1 - tail_len;
        name.take(head_len as int) + seq!['…'] + name.skip(name.len() - tail_len)
    }
}

/// Truncates a file name to at most `max_chars` characters with a middle
/// ellipsis; names that fit are returned unchanged.
pub fn truncate_filename(name: &str, max_chars: usize) -> (r: String)
    ensures
        r@ == truncated_filename(name@, max_chars as nat),
{
    let cs = to_chars(name);
    let count = cs.len();
    if max_chars == 0 {
        return String::new();
    }
    if count <= max_chars {
        return String::from_str(name);
    }
    let mut out: Vec<char> = Vec::new();
    if max_chars == 1 {
        out.push('…');
        assert(out@ =~= seq!['…']);
        return from_chars(out.as_slice());
    }
    let tail_len = (max_chars - 1) / 3;
    let head_len = max_chars - 1 - tail_len;
    let head = copy_range(cs.as_slice(), 0, head_len);
    let tail = copy_range(cs.as_slice(), count - tail_len, count);
    push_chars_vec(&mut out, &head);
    out.push('…');
    push_chars_vec(&mut out, &tail);
    assert(out@ =~= truncated_filename(name@, max_chars as nat));
    from_chars(out.as_slice())
}

fn push_chars_vec(out: &mut Vec<char>, cs: &Vec<char>)
    ensures
        final(out)@ == old(out)@ + cs@,
{
    let mut i: usize = 0;
    while i < cs.len()
        invariant
            i <= cs@.len(),
            out@ == old(out)@ + cs@.take(i as int),
        decreases cs.len() - i,
    {
        out.push(cs[i]);
        i += 1;
        assert(out@ =~= old(out)@ + cs@.take(i as int));
    }
    assert(cs@.take(cs@.len() as int) =~= cs@);
}

fn push_literal(out: &mut Vec<char>, s: &str)
    ensures
        final(out)@ == old(out)@ + s@,
{
    let cs = to_chars(s);
    push_chars_vec(out, &cs);
}

/// Remaining bytes as whole GiB rounded up (`""` for nothing, `"<1GB"`
/// below one GiB).
pub open spec fn remaining_gb_text(bytes: nat) -> Seq<char> {
    if bytes == 0 {
        Seq::<char>::empty()
    } else if bytes < GB {
        "<1GB"@
    } else {
        decimal(((f64_of(bytes) + GB - 1) as nat) / (GB as nat)) + "GB"@
    }
}

/// Formats remaining bytes as GiB, rounding up.
pub fn format_remaining_gb(bytes: u64) -> (r: String)
    ensures
        r@ == remaining_gb_text(bytes as nat),
{
    if bytes == 0 {
        String::new()
    } else if bytes < GB {
        String::from_str("<1GB")
    } else {
        let f = nearest_f64(bytes);
        let gb = (f + (GB as u128) - 1) / (GB as u128);
        assert(gb <= u64::MAX);
        let mut out: Vec<char> = Vec::new();
        push_decimal(&mut out, gb as u64);
        push_literal(&mut out, "GB");
        from_chars(out.as_slice())
    }
}

/// Compact byte size: GiB with one decimal, MiB and KiB rounded to whole
/// units, bytes as is.
pub open spec fn bytes_hud_text(bytes: nat) -> Seq<char> {
    if bytes >= GB {
        let t = div_round_even(f64_of(bytes) * 10, GB as nat);
        decimal(t / 10) + seq!['.'] + decimal(t % 10) + "GB"@
    } else if bytes >= MB {
        decimal(div_round_even(bytes, MB as nat)) + "MB"@
    } else if bytes >= KB {
        decimal(div_round_even(bytes, KB as nat)) + "KB"@
    } else {
        decimal(bytes) + seq!['B']
    }
}

/// Compact byte size for the activity columns, e.g. `"38.2GB"`, `"512MB"`.
pub fn format_bytes_hud(bytes: u64) -> (r: String)
    ensures
        r@ == bytes_hud_text(bytes as nat),
{
    let mut out: Vec<char> = Vec::new();
    if bytes >= GB {
        let f = nearest_f64(bytes);
        let t = div_round_even_u128(f * 10, GB as u128);
        proof {
            crate::utils::lemma_dre_bound((f * 10) as nat, GB as nat);
        }
        push_decimal(&mut out, (t / 10) as u64);
        out.push('.');
        push_decimal(&mut out, (t % 10) as u64);
        push_literal(&mut out, "GB");
    } else if bytes >= MB {
        let m = div_round_even_u128(bytes as u128, MB as u128);
        proof {
            crate::utils::lemma_dre_bound(bytes as nat, MB as nat);
        }
        push_decimal(&mut out, m as u64);
        push_literal(&mut out, "MB");
    } else if bytes >= KB {
        let k = div_round_even_u128(bytes as u128, KB as u128);
        proof {
            crate::utils::lemma_dre_bound(bytes as nat, KB as nat);
        }
        push_decimal(&mut out, k as u64);
        push_literal(&mut out, "KB");
    } else {
        push_decimal(&mut out, bytes);
        out.push('B');
    }
    assert(out@ =~= bytes_hud_text(bytes as nat));
    from_chars(out.as_slice())
}

/// Compact ETA for a 7-cell column: `"~1h05m"`, `"~12m21s"`, `"~42s"`.
pub open spec fn eta_hud_text(secs: nat) -> Seq<char> {
    if secs >= 3600 {
        seq!['~'] + decimal(secs / 3600) + seq!['h'] + decimal_padded((secs % 3600) / 60, 2) + seq!['m']
    } else if secs >= 60 {
        seq!['~'] + decimal(secs / 60) + seq!['m'] + decimal(secs % 60) + seq!['s']
    } else {
        seq!['~'] + decimal(secs) + seq!['s']
    }
}

/// Formats an ETA in seconds for the activity column.
pub fn format_eta_hud(secs: u64) -> (r: String)
    ensures
        r@ == eta_hud_text(secs as nat),
{
    let mut out: Vec<char> = Vec::new();
    out.push('~');
    if secs >= 3600 {
        push_decimal(&mut out, secs / 3600);
        out.push('h');
        push_decimal_padded(&mut out, (secs % 3600) / 60, 2);
        out.push('m');
    } else if secs >= 60 {
        push_decimal(&mut out, secs / 60);
        out.push('m');
        push_decimal(&mut out, secs % 60);
        out.push('s');
    } else {
        push_decimal(&mut out, secs);
        out.push('s');
    }
    assert(out@ =~= eta_hud_text(secs as nat));
    from_chars(out.as_slice())
}

/// `name` cut to `max` characters keeping head and tail around a `~`
/// (names that fit, and limits below 3, keep the first `max` characters).
pub open spec fn middle_truncated(name: Seq<char>, max: nat) -> Seq<char> {
    if name.len() <= max || max < 3 {
        name.take(if max < name.len() { max as int } else { name.len() as int })
    } else {
        let tail_w = (max - 1) / 2;
        let head_w = max - 1 - tail_w;
        name.take(head_w as int) + seq!['~'] + name.skip(name.len() - tail_w)
    }
}

/// Middle-truncates a name to `max` characters with a `~` marker.
pub fn truncate_name_middle(name: &str, max: usize) -> (r: String)
    ensures
        r@ == middle_truncated(name@, max as nat),
{
    let cs = to_chars(name);
    let n = cs.len();
    if n <= max || max < 3 {
        let k = if max < n { max } else { n };
        let t = copy_range(cs.as_slice(), 0, k);
        return from_chars(t.as_slice());
    }
    let tail_w = (max - 1) / 2;
    let head_w = max - 1 - tail_w;
    let head = copy_range(cs.as_slice(), 0, head_w);
    let tail = copy_range(cs.as_slice(), n - tail_w, n);
    let mut out: Vec<char> = Vec::new();
    push_chars_vec(&mut out, &head);
    out.push('~');
    push_chars_vec(&mut out, &tail);
    assert(out@ =~= middle_truncated(name@, max as nat));
    from_chars(out.as_slice())
}

// ---------------------------------------------------------------------------
// Activity display layout
// ---------------------------------------------------------------------------

/// Column layout shared by all activity rows, degraded on narrow
/// terminals.
#[derive(Debug, Clone, Copy, PartialEq, Eq, Structural)]
pub struct HudColumns {
    pub name_w: usize,
    pub pct_w: usize,
    pub speed_w: usize,
    pub eta_w: usize,
}

/// Visible width of the right-aligned block (percent, speed, ETA, gaps).
pub open spec fn right_width(c: HudColumns) -> int {
    c.pct_w + (if c.speed_w > 0 { 1 + c.speed_w } else { 0 }) + (if c.eta_w > 0 { 1 + c.eta_w } else { 0 })
}

impl HudColumns {
    /// The layout for a terminal `w` columns wide: name, speed and ETA
    /// columns shrink or vanish below 100, 84 and 70 columns.
    pub fn for_width(w: usize) -> (r: HudColumns)
        ensures
            r.pct_w == 4,
            w >= 100 ==> r.name_w == 24 && r.speed_w == 9 && r.eta_w == 7,
            84 <= w < 100 ==> r.name_w == 16 && r.speed_w == 9 && r.eta_w == 0,
            70 <= w < 84 ==> r.name_w == 10 && r.speed_w == 9 && r.eta_w == 0,
            w < 70 ==> r.name_w == 6 && r.speed_w == 0 && r.eta_w == 0,
    {
        let (name_w, speed_w, eta_w) = if w >= 100 {
            (24, 9, 7)
        } else if w >= 84 {
            (16, 9, 0)
        } else if w >= 70 {
            (10, 9, 0)
        } else {
            (6, 0, 0)
        };
        HudColumns { name_w, pct_w: 4, speed_w, eta_w }
    }

    /// Visible width of the right-aligned block.
    pub fn right_w(&self) -> (r: usize)
        requires
            right_width(*self) <= usize::MAX,
        ensures
            r == right_width(*self),
    {
        let mut w = self.pct_w;
        if self.speed_w > 0 {
            w += 1 + self.speed_w;
        }
        if self.eta_w > 0 {
            w += 1 + self.eta_w;
        }
        w
    }

    /// Middle space for the bar: what is left of `total_w` after borders,
    /// paddings, the name and the right block (0 when nothing is).
    pub fn middle_w(&self, total_w: usize) -> (r: usize)
        requires
            4 + self.name_w + 2 + right_width(*self) + 2 <= usize::MAX,
        ensures
            r == (if total_w >= 4 + self.name_w + 2 + right_width(*self) + 2 {
                total_w - (4 + self.name_w + 2 + right_width(*self) + 2)
            } else {
                0
            }),
    {
        total_w.saturating_sub(4 + self.name_w + 1 + 1 + self.right_w() + 2)
    }
}

/// Largest number of item rows the activity display shows.
pub const HUD_MAX_ITEM_ROWS: usize = 8;

/// Largest number of queued items listed (the rest as one `+N more` row).
pub const HUD_MAX_QUEUE_ROWS: usize = 3;

/// Item rows: the download, each verification, up to three queued items
/// and a `+N more` row when more are queued.
pub open spec fn item_rows(downloading: bool, verifying: nat, queued: nat) -> nat {
    (if downloading { 1nat } else { 0nat }) + verifying + (if queued <= 3 { queued } else { 4 })
}

/// Number of item rows of the activity display.
pub fn hud_item_row_count(downloading: bool, verifying: usize, queued: usize) -> (r: usize)
    requires
        verifying + 5 <= usize::MAX,
    ensures
        r == item_rows(downloading, verifying as nat, queued as nat),
{
    let mut rows: usize = 0;
    if downloading {
        rows += 1;
    }
    rows += verifying;
    rows += if queued < HUD_MAX_QUEUE_ROWS { queued } else { HUD_MAX_QUEUE_ROWS };
    if queued > HUD_MAX_QUEUE_ROWS {
        rows += 1;
    }
    rows
}

/// Height of the activity display for `rows` item rows: nothing when
/// idle, else the rows (at most eight) plus a footer and two borders.
pub fn activity_hud_height(rows: usize) -> (r: u16)
    ensures
        r == (if rows == 0 { 0 } else if rows < 8 { rows + 3 } else { 11 }),
{
    if rows == 0 {
        0
    } else {
        let capped = if rows < HUD_MAX_ITEM_ROWS { rows } else { HUD_MAX_ITEM_ROWS };
        capped as u16 + 1 + 2
    }
}

/// State of one cell of the chunk map: done, active or pending.
pub open spec fn chunk_cell(completed: Seq<bool>, active: Seq<usize>, bucket: int) -> char {
    if completed[bucket] {
        '█'
    } else if active.contains(bucket as usize) {
        '▓'
    } else {
        '░'
    }
}

/// One character per cell, each cell standing for the chunks
/// `i * total / cells` on.
pub open spec fn chunk_map(completed: Seq<bool>, active: Seq<usize>, cells: nat) -> Seq<char> {
    if completed.len() == 0 || cells == 0 {
        Seq::<char>::empty()
    } else {
        Seq::new(cells, |i: int| chunk_cell(completed, active, i * completed.len() / cells as int))
    }
}

/// The chunk map of a download: each of `cells` positions shows whether
/// its bucket of chunks is done, active or pending.
pub fn chunk_map_cells(completed: &[bool], active_ids: &[usize], cells: usize) -> (r: Vec<char>)
    requires
        cells * completed@.len() <= usize::MAX,
    ensures
        r@ == chunk_map(completed@, active_ids@, cells as nat),
{
    let total = completed.len();
    let mut out: Vec<char> = Vec::new();
    if total == 0 || cells == 0 {
        assert(out@ =~= chunk_map(completed@, active_ids@, cells as nat));
        return out;
    }
    let mut i: usize = 0;
    while i < cells
        invariant
            i <= cells,
            total == completed@.len(),
            total > 0,
            cells * total <= usize::MAX,
            out@ =~= Seq::new(i as nat, |k: int| chunk_cell(completed@, active_ids@, k * total / cells as int)),
        decreases cells - i,
    {
        assert(i * total < cells * total) by (nonlinear_arith)
            requires
                i < cells,
                total > 0,
        ;
        let bucket = i * total / cells;
        assert(bucket < total) by (nonlinear_arith)
            requires
                bucket as int == (i * total) as int / cells as int,
                i < cells,
                total > 0,
                cells > 0,
        ;
        let ch = if completed[bucket] {
            '█'
        } else if contains_usize(active_ids, bucket) {
            '▓'
        } else {
            '░'
        };
        out.push(ch);
        i += 1;
    }
    out
}

fn contains_usize(v: &[usize], x: usize) -> (r: bool)
    ensures
        r == v@.contains(x),
{
    let mut i: usize = 0;
    while i < v.len()
        invariant
            i <= v@.len(),
            forall|j: int| 0 <= j < i ==> v@[j] != x,
        decreases v.len() - i,
    {
        if v[i] == x {
            assert(v@[i as int] == x);
            return true;
        }
        i += 1;
    }
    false
}

// ---------------------------------------------------------------------------
// Activity rows
// ---------------------------------------------------------------------------

/// Width of the progress bar and number of chunk-map cells of a download
/// row whose middle is `middle` cells wide: a 24-cell bar and the map
/// after the label when there is room for both (at most one cell per
/// chunk, the bar taking the rest); else the bar alone.
pub open spec fn row_layout(middle: nat, num_chunks: nat, label_w: nat) -> (nat, nat) {
    if num_chunks > 0 && middle >= 24 + label_w + 4 {
        let cells = (middle - 24 - label_w) as nat;
        if cells > num_chunks {
            ((middle - num_chunks - label_w) as nat, num_chunks)
        } else {
            (24, cells)
        }
    } else {
        (middle, 0)
    }
}

/// Splits the middle of a download row into the bar and the chunk map.
pub fn download_row_layout(middle: usize, num_chunks: usize, label_w: usize) -> (r: (usize, usize))
    ensures
        (r.0 as nat, r.1 as nat) == row_layout(middle as nat, num_chunks as nat, label_w as nat),
{
    let mut bar_w = middle;
    let mut map_cells: usize = 0;
    if num_chunks > 0 && label_w <= middle && middle - label_w >= 28 {
        bar_w = 24;
        map_cells = middle - bar_w - label_w;
        if map_cells > num_chunks {
            map_cells = num_chunks;
            bar_w = middle - map_cells - label_w;
        }
    }
    (bar_w, map_cells)
}

/// The chunk label of a download row: `ch <done>/<total>`.
pub open spec fn chunk_label_text(done: nat, total: nat) -> Seq<char> {
    "ch "@ + decimal(done) + "/"@ + decimal(total)
}

/// Counts the finished chunks and labels them.
pub fn chunk_label(completed: &[bool], num_chunks: usize) -> (r: String)
    ensures
        r@ == chunk_label_text(completed@.filter(|b: bool| b).len(), num_chunks as nat),
{
    let mut done: usize = 0;
    let mut i: usize = 0;
    while i < completed.len()
        invariant
            i <= completed@.len(),
            done == completed@.take(i as int).filter(|b: bool| b).len(),
            done <= i,
        decreases completed.len() - i,
    {
        proof {
            reveal(Seq::filter);
            assert(completed@.take(i + 1).drop_last() =~= completed@.take(i as int));
            assert(completed@.take(i + 1).last() == completed@[i as int]);
        }
        if completed[i] {
            done = done + 1;
        }
        i += 1;
    }
    proof {
        assert(completed@.take(completed@.len() as int) =~= completed@);
    }
    let mut out: Vec<char> = Vec::new();
    push_literal(&mut out, "ch ");
    push_decimal(&mut out, done as u64);
    out.push('/');
    push_decimal(&mut out, num_chunks as u64);
    proof {
        reveal_strlit("ch ");
        reveal_strlit("/");
    }
    assert(out@ =~= chunk_label_text(done as nat, num_chunks as nat));
    from_chars(out.as_slice())
}

/// `s` right-aligned in `w` cells (`{:>w$}`): spaces before it when it is
/// shorter, nothing cut when it is longer.
pub open spec fn right_aligned(s: Seq<char>, w: nat) -> Seq<char> {
    if s.len() >= w {
        s
    } else {
        Seq::new((w - s.len()) as nat, |i: int| ' ') + s
    }
}

pub open spec fn opt_text(o: Option<Seq<char>>) -> Seq<char> {
    match o {
        Some(t) => t,
        None => Seq::<char>::empty(),
    }
}

/// The right block of an activity row: the percentage in four cells (or
/// `  --`), then the speed and the ETA right-aligned in their columns when
/// the layout has them.
pub open spec fn right_block_text(c: HudColumns, pct: Option<u16>, speed: Option<Seq<char>>, eta: Option<Seq<char>>) -> Seq<char> {
    (match pct {
        Some(p) => right_aligned(decimal(p as nat), 3) + seq!['%'],
        None => "  --"@,
    }) + (if c.speed_w > 0 {
        seq![' '] + right_aligned(opt_text(speed), c.speed_w as nat)
    } else {
        Seq::<char>::empty()
    }) + (if c.eta_w > 0 {
        seq![' '] + right_aligned(opt_text(eta), c.eta_w as nat)
    } else {
        Seq::<char>::empty()
    })
}

pub(crate) fn push_right_aligned(out: &mut Vec<char>, s: &[char], w: usize)
    ensures
        final(out)@ == old(out)@ + right_aligned(s@, w as nat),
{
    let ghost start = out@;
    if s.len() < w {
        let pad = w - s.len();
        let mut k: usize = 0;
        while k < pad
            invariant
                k <= pad,
                out@ == start + Seq::new(k as nat, |i: int| ' '),
            decreases pad - k,
        {
            out.push(' ');
            proof {
                assert(start + Seq::new((k + 1) as nat, |i: int| ' ') =~= start + Seq::new(k as nat, |i: int| ' ')
                    + seq![' ']);
            }
            k += 1;
        }
    }
    let ghost mid = out@;
    let mut j: usize = 0;
    while j < s.len()
        invariant
            j <= s@.len(),
            out@ == mid + s@.take(j as int),
        decreases s.len() - j,
    {
        out.push(s[j]);
        proof {
            assert(s@.take(j + 1) =~= s@.take(j as int).push(s@[j as int]));
        }
        j += 1;
    }
    proof {
        assert(s@.take(s@.len() as int) =~= s@);
    }
    assert(out@ =~= start + right_aligned(s@, w as nat));
}

/// The right block of an activity row.
pub fn right_block(cols: &HudColumns, pct: Option<u16>, speed: Option<&str>, eta: Option<&str>) -> (r: String)
    ensures
        r@ == right_block_text(
            *cols,
            pct,
            match speed {
                Some(s) => Some(s@),
                None => None,
            },
            match eta {
                Some(e) => Some(e@),
                None => None,
            },
        ),
{
    let mut out: Vec<char> = Vec::new();
    match pct {
        Some(p) => {
            let mut digits: Vec<char> = Vec::new();
            push_decimal(&mut digits, p as u64);
            push_right_aligned(&mut out, digits.as_slice(), 3);
            out.push('%');
        },
        None => {
            push_literal(&mut out, "  --");
        },
    }
    let ghost head = out@;
    if cols.speed_w > 0 {
        out.push(' ');
        let sp = match speed {
            Some(s) => to_chars(s),
            None => Vec::new(),
        };
        push_right_aligned(&mut out, sp.as_slice(), cols.speed_w);
    }
    let ghost mid = out@;
    if cols.eta_w > 0 {
        out.push(' ');
        let e = match eta {
            Some(s) => to_chars(s),
            None => Vec::new(),
        };
        push_right_aligned(&mut out, e.as_slice(), cols.eta_w);
    }
    let ghost sv: Option<Seq<char>> = match speed {
        Some(s) => Some(s@),
        None => None,
    };
    let ghost ev: Option<Seq<char>> = match eta {
        Some(e) => Some(e@),
        None => None,
    };
    assert(mid =~= head + (if cols.speed_w > 0 {
        seq![' '] + right_aligned(opt_text(sv), cols.speed_w as nat)
    } else {
        Seq::<char>::empty()
    }));
    assert(out@ =~= right_block_text(*cols, pct, sv, ev));
    from_chars(out.as_slice())
}

/// The dotted rail of a queued row: a dot every five cells, then spaces to
/// the full width.
pub open spec fn rail_text(middle: nat) -> Seq<char> {
    Seq::new(middle, |i: int| if i % 5 == 0 && i + 5 <= 5 * (middle / 5) { '·' } else { ' ' })
}

/// The dotted rail that fills the middle of a queued row.
pub fn queue_rail(middle: usize) -> (r: String)
    ensures
        r@ == rail_text(middle as nat),
{
    let mut out: Vec<char> = Vec::new();
    let dots = middle / 5;
    let mut k: usize = 0;
    while k < dots
        invariant
            k <= dots,
            dots == middle / 5,
            out@ == rail_text(middle as nat).take(5 * k as int),
        decreases dots - k,
    {
        out.push('·');
        out.push(' ');
        out.push(' ');
        out.push(' ');
        out.push(' ');
        proof {
            assert(out@ =~= rail_text(middle as nat).take(5 * (k + 1) as int));
        }
        k += 1;
    }
    let mut i: usize = 5 * dots;
    while i < middle
        invariant
            5 * dots <= i <= middle,
            dots == middle / 5,
            out@ == rail_text(middle as nat).take(i as int),
        decreases middle - i,
    {
        out.push(' ');
        proof {
            assert(out@ =~= rail_text(middle as nat).take(i + 1));
        }
        i += 1;
    }
    assert(out@ =~= rail_text(middle as nat));
    from_chars(out.as_slice())
}


/// Cells of a `width`-cell bar filled at `pct` percent: `width * pct / 100`
/// rounded half up, at most the width.
pub open spec fn bar_filled(pct: nat, width: nat) -> nat {
    let f = (width * pct + 50) / 100;
    if f > width { width } else { f }
}

/// The progress bar: filled cells, then empty ones.
pub open spec fn bar_text(pct: nat, width: nat) -> Seq<char> {
    Seq::new(bar_filled(pct, width), |i: int| '█') + Seq::new((width - bar_filled(pct, width)) as nat, |i: int| '░')
}

/// A `width`-cell progress bar at `pct` percent.
pub fn progress_bar(pct: u16, width: usize) -> (r: String)
    ensures
        r@ == bar_text(pct as nat, width as nat),
{
    let wide: u128 = width as u128;
    assert(wide * (pct as u128) <= 0x1_0000_0000_0000_0000u128 * 0x1_0000u128) by (nonlinear_arith)
        requires
            wide < 0x1_0000_0000_0000_0000u128,
            pct < 0x1_0000u128,
    ;
    let quot: u128 = (wide * (pct as u128) + 50) / 100;
    let filled: usize = if quot > wide { width } else { quot as usize };
    assert(filled == bar_filled(pct as nat, width as nat));
    let mut out: Vec<char> = Vec::new();
    let mut k: usize = 0;
    while k < filled
        invariant
            k <= filled,
            out@ == Seq::new(k as nat, |i: int| '█'),
        decreases filled - k,
    {
        out.push('█');
        k += 1;
        assert(out@ =~= Seq::new(k as nat, |i: int| '█'));
    }
    let ghost head = out@;
    let empty = width - filled;
    let mut j: usize = 0;
    while j < empty
        invariant
            j <= empty,
            out@ == head + Seq::new(j as nat, |i: int| '░'),
        decreases empty - j,
    {
        out.push('░');
        j += 1;
        assert(out@ =~= head + Seq::new(j as nat, |i: int| '░'));
    }
    assert(out@ =~= bar_text(pct as nat, width as nat));
    from_chars(out.as_slice())
}

/// What the footer row of the activity display counts. `remaining` holds
/// the bytes still to download and the estimated seconds for them, when a
/// download with a known speed is running.
#[derive(Debug, Clone, Copy, PartialEq, Eq)]
pub struct HudFooter {
    pub verified_ok: usize,
    pub verified_fail: usize,
    pub verify_queue_size: usize,
    pub verify_queue_bytes: u64,
    pub queue_size: usize,
    pub queue_bytes: u64,
    pub remaining: Option<(u64, u64)>,
}

pub open spec fn hash_text(ok: nat, fail: nat) -> Seq<char> {
    "hash ✓"@ + decimal(ok) + " ✗"@ + decimal(fail)
}

pub open spec fn queue_text(label: Seq<char>, n: nat, bytes: nat) -> Seq<char> {
    label + decimal(n) + " ("@ + bytes_hud_text(bytes) + ")"@
}

pub open spec fn remaining_text(bytes: nat, secs: nat) -> Seq<char> {
    "remaining "@ + remaining_gb_text(bytes) + " "@ + eta_hud_text(secs)
}

pub open spec fn hash_part(f: HudFooter) -> Seq<Seq<char>> {
    if f.verified_ok > 0 || f.verified_fail > 0 {
        seq![hash_text(f.verified_ok as nat, f.verified_fail as nat)]
    } else {
        Seq::<Seq<char>>::empty()
    }
}

pub open spec fn verify_part(f: HudFooter) -> Seq<Seq<char>> {
    if f.verify_queue_size > 0 {
        seq![queue_text("verify q "@, f.verify_queue_size as nat, f.verify_queue_bytes as nat)]
    } else {
        Seq::<Seq<char>>::empty()
    }
}

pub open spec fn queue_part(f: HudFooter) -> Seq<Seq<char>> {
    if f.queue_size > 0 {
        seq![queue_text("dl q "@, f.queue_size as nat, f.queue_bytes as nat)]
    } else {
        Seq::<Seq<char>>::empty()
    }
}

pub open spec fn remaining_part(f: HudFooter) -> Seq<Seq<char>> {
    match f.remaining {
        Some((bytes, secs)) => seq![remaining_text(bytes as nat, secs as nat)],
        None => Seq::<Seq<char>>::empty(),
    }
}

/// The parts of the footer that have something to say, in order.
pub open spec fn footer_parts(f: HudFooter) -> Seq<Seq<char>> {
    hash_part(f) + verify_part(f) + queue_part(f) + remaining_part(f)
}

/// The footer row: `── ` then the parts joined by ` · ` (`idle` when
/// there is none), a space, and a rule to the inner width `width - 2`.
pub open spec fn footer_text(f: HudFooter, width: nat) -> Seq<char> {
    let body = if footer_parts(f).len() == 0 { "idle"@ } else { joined_with(footer_parts(f), " · "@) };
    let inner: int = if width >= 2 { width - 2 } else { 0 };
    let fill: int = if inner >= body.len() + 4 { inner - body.len() - 4 } else { 0 };
    "── "@ + body + " "@ + Seq::new(fill as nat, |i: int| '─')
}

proof fn lemma_join_push(parts: Seq<Seq<char>>, sep: Seq<char>, x: Seq<char>)
    ensures
        joined_with(parts.push(x), sep) == (if parts.len() == 0 { x } else { joined_with(parts, sep) + sep + x }),
{
    assert(parts.push(x).drop_last() =~= parts);
}

/// Appends one footer part, with the separator when it is not the first.
fn push_part(out: &mut Vec<char>, count: &mut usize, part: &Vec<char>, Ghost(parts): Ghost<Seq<Seq<char>>>)
    requires
        old(out)@ == joined_with(parts, " · "@),
        *old(count) == parts.len(),
        parts.len() < 4,
    ensures
        final(out)@ == joined_with(parts.push(part@), " · "@),
        *final(count) == parts.len() + 1,
{
    proof {
        lemma_join_push(parts, " · "@, part@);
    }
    if *count > 0 {
        push_literal(out, " · ");
    }
    push_chars_vec(out, part);
    *count = *count + 1;
}

fn hash_chars(ok: usize, fail: usize) -> (r: Vec<char>)
    ensures
        r@ == hash_text(ok as nat, fail as nat),
{
    let mut part: Vec<char> = Vec::new();
    push_literal(&mut part, "hash ✓");
    push_decimal(&mut part, ok as u64);
    push_literal(&mut part, " ✗");
    push_decimal(&mut part, fail as u64);
    part
}

fn queue_chars(label: &str, n: usize, bytes: u64) -> (r: Vec<char>)
    ensures
        r@ == queue_text(label@, n as nat, bytes as nat),
{
    let mut part: Vec<char> = Vec::new();
    push_literal(&mut part, label);
    push_decimal(&mut part, n as u64);
    push_literal(&mut part, " (");
    let b = format_bytes_hud(bytes);
    let bc = to_chars(b.as_str());
    push_chars_vec(&mut part, &bc);
    push_literal(&mut part, ")");
    part
}

fn remaining_chars(bytes: u64, secs: u64) -> (r: Vec<char>)
    ensures
        r@ == remaining_text(bytes as nat, secs as nat),
{
    let mut part: Vec<char> = Vec::new();
    push_literal(&mut part, "remaining ");
    let g = format_remaining_gb(bytes);
    let gc = to_chars(g.as_str());
    push_chars_vec(&mut part, &gc);
    push_literal(&mut part, " ");
    let e = format_eta_hud(secs);
    let ec = to_chars(e.as_str());
    push_chars_vec(&mut part, &ec);
    part
}

/// The parts of the footer joined by ` · `, with their count.
fn footer_body(f: &HudFooter) -> (r: (Vec<char>, usize))
    ensures
        r.0@ == joined_with(footer_parts(*f), " · "@),
        r.1 == footer_parts(*f).len(),
{
    let mut body: Vec<char> = Vec::new();
    let mut count: usize = 0;
    let ghost mut parts: Seq<Seq<char>> = Seq::empty();
    if f.verified_ok > 0 || f.verified_fail > 0 {
        let part = hash_chars(f.verified_ok, f.verified_fail);
        push_part(&mut body, &mut count, &part, Ghost(parts));
        proof {
            parts = parts.push(part@);
        }
    }
    assert(parts =~= hash_part(*f));
    if f.verify_queue_size > 0 {
        let part = queue_chars("verify q ", f.verify_queue_size, f.verify_queue_bytes);
        push_part(&mut body, &mut count, &part, Ghost(parts));
        proof {
            parts = parts.push(part@);
        }
    }
    assert(parts =~= hash_part(*f) + verify_part(*f));
    if f.queue_size > 0 {
        let part = queue_chars("dl q ", f.queue_size, f.queue_bytes);
        push_part(&mut body, &mut count, &part, Ghost(parts));
        proof {
            parts = parts.push(part@);
        }
    }
    assert(parts =~= hash_part(*f) + verify_part(*f) + queue_part(*f));
    match f.remaining {
        Some((bytes, secs)) => {
            let part = remaining_chars(bytes, secs);
            push_part(&mut body, &mut count, &part, Ghost(parts));
            proof {
                parts = parts.push(part@);
            }
        },
        None => {},
    }
    assert(parts =~= footer_parts(*f));
    (body, count)
}

/// The footer row of the activity display, `width` columns wide.
pub fn hud_footer(f: &HudFooter, width: usize) -> (r: String)
    ensures
        r@ == footer_text(*f, width as nat),
{
    let (mut body, count) = footer_body(f);
    if count == 0 {
        push_literal(&mut body, "idle");
    }
    let mut out: Vec<char> = Vec::new();
    push_literal(&mut out, "── ");
    push_chars_vec(&mut out, &body);
    out.push(' ');
    let inner = width.saturating_sub(2);
    let used = body.len().saturating_add(4);
    let fill = inner.saturating_sub(used);
    let ghost head = out@;
    let mut k: usize = 0;
    while k < fill
        invariant
            k <= fill,
            out@ == head + Seq::new(k as nat, |i: int| '─'),
        decreases fill - k,
    {
        out.push('─');
        k += 1;
        assert(out@ =~= head + Seq::new(k as nat, |i: int| '─'));
    }
    proof {
        reveal_strlit(" ");
    }
    assert(out@ =~= footer_text(*f, width as nat));
    from_chars(out.as_slice())
}

} // verus!
