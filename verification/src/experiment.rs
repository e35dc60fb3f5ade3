//! The report of the experimental validation suite.
//!
//! Each experiment builds a sheaf, computes the spectral gap of its
//! Laplacian, runs a gossip simulation and records how fast it converged.
//! The numbers are measured in floating point and reach this module already
//! written out (spectral gaps and errors to four or six decimals, eigenvalue
//! lists as a bracketed list); the step counts and stalk dimensions arrive as
//! integers.  [`summary`] lays them out as the report.
use vstd::prelude::*;

verus! {

/// Outcome of the five experiments.
pub struct ExperimentResults {
    /// Experiment 1 (constant sheaf on the complete graph): spectral gap,
    /// initial consensus error, error after 300 steps, and their ratio.
    pub convergence: (String, String, String, String),
    /// Experiment 2 (disagreement sheaf on a ring): spectral gap and
    /// eigenvalues.
    pub disagreement: (String, String),
    /// Experiment 3: per topology its name, spectral gap and steps to converge.
    pub topologies: Vec<(String, String, usize)>,
    /// Experiment 4 (rings of growing size): spectral gap and steps to converge.
    pub gap_vs_speed: Vec<(String, usize)>,
    /// Experiment 5 (complete graph, growing stalks): stalk dimension,
    /// spectral gap and steps to converge.
    pub stalk_dims: Vec<(usize, String, usize)>,
}

/// The decimal digit `d` as a character.
pub open spec fn digit_char(d: nat) -> char {
    "0123456789"@[d as int]
}

/// The decimal representation of `n`, without leading zeros.
pub open spec fn decimal(n: nat) -> Seq<char>
    decreases n,
{
    if n < 10 {
        seq![digit_char(n)]
    } else {
        decimal(n / 10).push(digit_char(n % 10))
    }
}

/// `s` right-aligned in a field of `width` characters, padded with spaces.
pub open spec fn pad_left(s: Seq<char>, width: nat) -> Seq<char> {
    if s.len() < width {
        Seq::new((width - s.len()) as nat, |i: int| ' ') + s
    } else {
        s
    }
}

/// One line of experiment 3.
pub open spec fn topology_line(row: (String, String, usize)) -> Seq<char> {
    "  "@ + pad_left(row.0@, 10) + ": spectral_gap="@ + row.1@ + ", convergence_steps="@
        + decimal(row.2 as nat) + "\n"@
}

/// One line of experiment 4.
pub open spec fn gap_speed_line(row: (String, usize)) -> Seq<char> {
    "  gap="@ + row.0@ + "  steps="@ + decimal(row.1 as nat) + "\n"@
}

/// One line of experiment 5.
pub open spec fn stalk_dim_line(row: (usize, String, usize)) -> Seq<char> {
    "  dim="@ + decimal(row.0 as nat) + ": spectral_gap="@ + row.1@ + ", convergence_steps="@
        + decimal(row.2 as nat) + "\n"@
}

/// The lines of experiment 3, one per row.
pub open spec fn topology_lines(rows: Seq<(String, String, usize)>) -> Seq<char>
    decreases rows.len(),
{
    if rows.len() == 0 {
        Seq::empty()
    } else {
        topology_lines(rows.drop_last()) + topology_line(rows.last())
    }
}

/// The lines of experiment 4, one per row.
pub open spec fn gap_speed_lines(rows: Seq<(String, usize)>) -> Seq<char>
    decreases rows.len(),
{
    if rows.len() == 0 {
        Seq::empty()
    } else {
        gap_speed_lines(rows.drop_last()) + gap_speed_line(rows.last())
    }
}

/// The lines of experiment 5, one per row.
pub open spec fn stalk_dim_lines(rows: Seq<(usize, String, usize)>) -> Seq<char>
    decreases rows.len(),
{
    if rows.len() == 0 {
        Seq::empty()
    } else {
        stalk_dim_lines(rows.drop_last()) + stalk_dim_line(rows.last())
    }
}

/// Heading and section of experiment 1.
pub open spec fn convergence_section(r: (String, String, String, String)) -> Seq<char> {
    "--- Experiment 1: Constant Sheaf Convergence ---\n"@ + "  Spectral gap: "@ + r.0@ + "\n"@
        + "  Initial error: "@ + r.1@ + "\n"@ + "  Final error (300 steps): "@ + r.2@ + "\n"@
        + "  Error ratio: "@ + r.3@ + "\n"@ + "  ✅ Constant sheaf converges to consensus\n\n"@
}

/// Heading and section of experiment 2.
pub open spec fn disagreement_section(r: (String, String)) -> Seq<char> {
    "--- Experiment 2: Disagreement Sheaf (Ring) ---\n"@ + "  Spectral gap: "@ + r.0@ + "\n"@
        + "  Eigenvalues: "@ + r.1@ + "\n"@
        + "  ℹ️  Disagreement sheaf eigenvalues reveal topology\n\n"@
}

/// Heading and section of experiment 3.
pub open spec fn topology_section(rows: Seq<(String, String, usize)>) -> Seq<char> {
    "--- Experiment 3: Topology Comparison ---\n"@ + topology_lines(rows)
        + "  ✅ Complete > Star > Ring (higher gap = faster convergence)\n\n"@
}

/// Heading and section of experiment 4.
pub open spec fn gap_speed_section(rows: Seq<(String, usize)>) -> Seq<char> {
    "--- Experiment 4: Spectral Gap vs Convergence Speed ---\n"@ + gap_speed_lines(rows)
        + "  ✅ Larger spectral gap → fewer steps to converge\n\n"@
}

/// Heading and section of experiment 5.
pub open spec fn stalk_dim_section(rows: Seq<(usize, String, usize)>) -> Seq<char> {
    "--- Experiment 5: Stalk Dimension Effect ---\n"@ + stalk_dim_lines(rows)
        + "  ✅ Higher stalk dimensions preserve convergence on complete graphs\n\n"@
}

/// The closing paragraph of the report.
pub open spec fn key_insight() -> Seq<char> {
    "=== Key Insight ===\n"@ + "Agent gossip IS sheaf cohomology:\n"@
        + "  • Zero eigenvalues  →  consensus reached (H⁰ = ℝ)\n"@
        + "  • Spectral gap       →  convergence rate\n"@
        + "  • Higher eigenvalues →  stubborn disagreements\n"@
        + "  • Sheaf structure    →  which agent networks reach consensus\n"@
}

/// The whole report.
pub open spec fn summary_text(r: ExperimentResults) -> Seq<char> {
    "=== si-sheaf-gossip: Experimental Results ===\n\n"@ + convergence_section(r.convergence)
        + disagreement_section(r.disagreement) + topology_section(r.topologies@)
        + gap_speed_section(r.gap_vs_speed@) + stalk_dim_section(r.stalk_dims@) + key_insight()
}

/// Calls `String::push`, trusted to append `c` at the end of `s` and to
/// change nothing else.
#[verifier::external_body]
fn push_char(s: &mut String, c: char)
    ensures
        final(s)@ == old(s)@.push(c),
{
    s.push(c);
}

/// Appends the decimal representation of `n`.
fn push_decimal(out: &mut String, n: usize)
    ensures
        final(out)@ == old(out)@ + decimal(n as nat),
    decreases n,
{
    if n >= 10 {
        push_decimal(out, n / 10);
    }
    let digits = "0123456789";
    proof {
        reveal_strlit("0123456789");
    }
    let c = digits.get_char(n % 10);
    let ghost before = out@;
    push_char(out, c);
    proof {
        if n < 10 {
            assert(out@ =~= old(out)@ + decimal(n as nat));
        } else {
            assert(decimal(n as nat) == decimal((n / 10) as nat).push(digit_char((n % 10) as nat)));
            assert(out@ =~= old(out)@ + decimal(n as nat));
        }
    }
}

/// Appends `s` right-aligned in a field of `width` characters.
fn push_padded(out: &mut String, s: &String, width: usize)
    ensures
        final(out)@ == old(out)@ + pad_left(s@, width as nat),
{
    let len = s.as_str().unicode_len();
    if len < width {
        let mut k: usize = 0;
        while k < width - len
            invariant
                len < width,
                k <= width - len,
                out@ =~= old(out)@ + Seq::new(k as nat, |i: int| ' '),
            decreases width - len - k,
        {
            push_char(out, ' ');
            k += 1;
        }
    }
    out.append(s.as_str());
    assert(out@ =~= old(out)@ + pad_left(s@, width as nat));
}

/// Appends the section of experiment 1.
fn push_convergence(out: &mut String, c: &(String, String, String, String))
    ensures
        final(out)@ == old(out)@ + convergence_section(*c),
{
    out.append("--- Experiment 1: Constant Sheaf Convergence ---\n");
    out.append("  Spectral gap: ");
    out.append(c.0.as_str());
    out.append("\n");
    out.append("  Initial error: ");
    out.append(c.1.as_str());
    out.append("\n");
    out.append("  Final error (300 steps): ");
    out.append(c.2.as_str());
    out.append("\n");
    out.append("  Error ratio: ");
    out.append(c.3.as_str());
    out.append("\n");
    out.append("  ✅ Constant sheaf converges to consensus\n\n");
    assert(out@ =~= old(out)@ + convergence_section(*c));
}

/// Appends the section of experiment 2.
fn push_disagreement(out: &mut String, d: &(String, String))
    ensures
        final(out)@ == old(out)@ + disagreement_section(*d),
{
    out.append("--- Experiment 2: Disagreement Sheaf (Ring) ---\n");
    out.append("  Spectral gap: ");
    out.append(d.0.as_str());
    out.append("\n");
    out.append("  Eigenvalues: ");
    out.append(d.1.as_str());
    out.append("\n");
    out.append("  ℹ️  Disagreement sheaf eigenvalues reveal topology\n\n");
    assert(out@ =~= old(out)@ + disagreement_section(*d));
}

/// Appends the section of experiment 3.
fn push_topologies(out: &mut String, rows: &Vec<(String, String, usize)>)
    ensures
        final(out)@ == old(out)@ + topology_section(rows@),
{
    out.append("--- Experiment 3: Topology Comparison ---\n");
    let ghost lines_start = out@;
    let mut i: usize = 0;
    while i < rows.len()
        invariant
            i <= rows@.len(),
            out@ == lines_start + topology_lines(rows@.take(i as int)),
        decreases rows.len() - i,
    {
        let ghost before = out@;
        let row = &rows[i];
        out.append("  ");
        push_padded(out, &row.0, 10);
        out.append(": spectral_gap=");
        out.append(row.1.as_str());
        out.append(", convergence_steps=");
        push_decimal(out, row.2);
        out.append("\n");
        proof {
            assert(rows@.take(i + 1).drop_last() =~= rows@.take(i as int));
            assert(out@ =~= before + topology_line(rows@[i as int]));
        }
        i += 1;
    }
    assert(rows@.take(rows@.len() as int) =~= rows@);
    out.append("  ✅ Complete > Star > Ring (higher gap = faster convergence)\n\n");
    assert(out@ =~= old(out)@ + topology_section(rows@));
}

/// Appends the section of experiment 4.
fn push_gap_speed(out: &mut String, rows: &Vec<(String, usize)>)
    ensures
        final(out)@ == old(out)@ + gap_speed_section(rows@),
{
    out.append("--- Experiment 4: Spectral Gap vs Convergence Speed ---\n");
    let ghost lines_start = out@;
    let mut i: usize = 0;
    while i < rows.len()
        invariant
            i <= rows@.len(),
            out@ == lines_start + gap_speed_lines(rows@.take(i as int)),
        decreases rows.len() - i,
    {
        let ghost before = out@;
        let row = &rows[i];
        out.append("  gap=");
        out.append(row.0.as_str());
        out.append("  steps=");
        push_decimal(out, row.1);
        out.append("\n");
        proof {
            assert(rows@.take(i + 1).drop_last() =~= rows@.take(i as int));
            assert(out@ =~= before + gap_speed_line(rows@[i as int]));
        }
        i += 1;
    }
    assert(rows@.take(rows@.len() as int) =~= rows@);
    out.append("  ✅ Larger spectral gap → fewer steps to converge\n\n");
    assert(out@ =~= old(out)@ + gap_speed_section(rows@));
}

/// Appends the section of experiment 5.
fn push_stalk_dims(out: &mut String, rows: &Vec<(usize, String, usize)>)
    ensures
        final(out)@ == old(out)@ + stalk_dim_section(rows@),
{
    out.append("--- Experiment 5: Stalk Dimension Effect ---\n");
    let ghost lines_start = out@;
    let mut i: usize = 0;
    while i < rows.len()
        invariant
            i <= rows@.len(),
            out@ == lines_start + stalk_dim_lines(rows@.take(i as int)),
        decreases rows.len() - i,
    {
        let ghost before = out@;
        let row = &rows[i];
        out.append("  dim=");
        push_decimal(out, row.0);
        out.append(": spectral_gap=");
        out.append(row.1.as_str());
        out.append(", convergence_steps=");
        push_decimal(out, row.2);
        out.append("\n");
        proof {
            assert(rows@.take(i + 1).drop_last() =~= rows@.take(i as int));
            assert(out@ =~= before + stalk_dim_line(rows@[i as int]));
        }
        i += 1;
    }
    assert(rows@.take(rows@.len() as int) =~= rows@);
    out.append("  ✅ Higher stalk dimensions preserve convergence on complete graphs\n\n");
    assert(out@ =~= old(out)@ + stalk_dim_section(rows@));
}

/// Appends the closing paragraph.
fn push_key_insight(out: &mut String)
    ensures
        final(out)@ == old(out)@ + key_insight(),
{
    out.append("=== Key Insight ===\n");
    out.append("Agent gossip IS sheaf cohomology:\n");
    out.append("  • Zero eigenvalues  →  consensus reached (H⁰ = ℝ)\n");
    out.append("  • Spectral gap       →  convergence rate\n");
    out.append("  • Higher eigenvalues →  stubborn disagreements\n");
    out.append("  • Sheaf structure    →  which agent networks reach consensus\n");
    assert(out@ =~= old(out)@ + key_insight());
}

/// Lays out the results of the experiments as the report: a title, one
/// section per experiment with its numbers, and the key insight.
pub fn summary(results: &ExperimentResults) -> (report: String)
    ensures
        report@ == summary_text(*results),
{
    let mut out = String::new();
    out.append("=== si-sheaf-gossip: Experimental Results ===\n\n");
    push_convergence(&mut out, &results.convergence);
    push_disagreement(&mut out, &results.disagreement);
    push_topologies(&mut out, &results.topologies);
    push_gap_speed(&mut out, &results.gap_vs_speed);
    push_stalk_dims(&mut out, &results.stalk_dims);
    push_key_insight(&mut out);
    assert(out@ =~= summary_text(*results));
    out
}

/// The number a string of decimal digits stands for.
pub open spec fn digits_value(s: Seq<char>) -> int
    decreases s.len(),
{
    if s.len() == 0 {
        0
    } else {
        digits_value(s.drop_last()) * 10 + (s.last() as int - '0' as int)
    }
}

/// The character of digit `d` is the `d`-th character after `'0'`.
proof fn lemma_digit_char(d: nat)
    requires
        d < 10,
    ensures
        digit_char(d) as int == '0' as int + d,
{
    reveal_strlit("0123456789");
    let s = "0123456789"@;
    if d == 0 {
        assert(s[0] == '0');
    } else if d == 1 {
        assert(s[1] == '1');
    } else if d == 2 {
        assert(s[2] == '2');
    } else if d == 3 {
        assert(s[3] == '3');
    } else if d == 4 {
        assert(s[4] == '4');
    } else if d == 5 {
        assert(s[5] == '5');
    } else if d == 6 {
        assert(s[6] == '6');
    } else if d == 7 {
        assert(s[7] == '7');
    } else if d == 8 {
        assert(s[8] == '8');
    } else {
        assert(s[9] == '9');
    }
}

/// `decimal(n)` is the base-10 representation of `n`: a non-empty string of
/// the digits `'0'..='9'` that reads back as `n`, with no leading zero
/// unless `n` is zero.
pub proof fn lemma_decimal(n: nat)
    ensures
        decimal(n).len() > 0,
        forall|i: int| 0 <= i < decimal(n).len() ==> '0' <= #[trigger] decimal(n)[i] <= '9',
        digits_value(decimal(n)) == n,
        decimal(n)[0] == '0' ==> n == 0,
    decreases n,
{
    let s = decimal(n);
    if n < 10 {
        lemma_digit_char(n);
        assert(s.drop_last() =~= Seq::<char>::empty());
        assert(digits_value(s.drop_last()) == 0);
        assert(s.last() == digit_char(n));
    } else {
        lemma_decimal(n / 10);
        lemma_digit_char(n % 10);
        let p = decimal(n / 10);
        assert(s == p.push(digit_char(n % 10)));
        assert(s.drop_last() =~= p);
        assert(s[0] == p[0]);
        assert forall|i: int| 0 <= i < s.len() implies '0' <= #[trigger] s[i] <= '9' by {
            if i < p.len() {
                assert(s[i] == p[i]);
            }
        }
        vstd::arithmetic::div_mod::lemma_fundamental_div_mod(n as int, 10);
        assert(s.last() == digit_char(n % 10));
        assert(digits_value(s) == digits_value(p) * 10 + (n % 10));
        assert((n / 10) as int * 10 == 10 * (n / 10) as int);
    }
}

/// `pad_left(s, width)` is `s` preceded by just enough spaces to fill
/// `width` characters, and `s` itself when it is already that long.
pub proof fn lemma_pad_left(s: Seq<char>, width: nat)
    ensures
        pad_left(s, width).len() == if s.len() < width { width } else { s.len() },
        pad_left(s, width).subrange(pad_left(s, width).len() - s.len(), pad_left(s, width).len() as int) == s,
        forall|i: int| 0 <= i < pad_left(s, width).len() - s.len() ==> #[trigger] pad_left(s, width)[i] == ' ',
{
    let p = pad_left(s, width);
    assert(p.subrange(p.len() - s.len(), p.len() as int) =~= s);
}

/// Whether `t` occurs in `s` as a block of consecutive characters.
pub open spec fn contains_text(s: Seq<char>, t: Seq<char>) -> bool {
    exists|i: int| 0 <= i && i + t.len() <= s.len() && #[trigger] s.subrange(i, i + t.len()) == t
}

proof fn lemma_contains_middle(a: Seq<char>, t: Seq<char>, b: Seq<char>)
    ensures
        contains_text(a + t + b, t),
{
    let s = a + t + b;
    assert(s.subrange(a.len() as int, (a.len() + t.len()) as int) =~= t);
}

proof fn lemma_contains_trans(s: Seq<char>, m: Seq<char>, t: Seq<char>)
    requires
        contains_text(s, m),
        contains_text(m, t),
    ensures
        contains_text(s, t),
{
    let i = choose|i: int| 0 <= i && i + m.len() <= s.len() && #[trigger] s.subrange(i, i + m.len()) == m;
    let j = choose|j: int| 0 <= j && j + t.len() <= m.len() && #[trigger] m.subrange(j, j + t.len()) == t;
    assert(s.subrange(i + j, i + j + t.len()) =~= t);
}

proof fn lemma_contains_extend(a: Seq<char>, t: Seq<char>, b: Seq<char>)
    requires
        contains_text(a, t),
    ensures
        contains_text(a + b, t),
{
    let i = choose|i: int| 0 <= i && i + t.len() <= a.len() && #[trigger] a.subrange(i, i + t.len()) == t;
    assert((a + b).subrange(i, i + t.len()) =~= t);
}

proof fn lemma_contains_prepend(a: Seq<char>, b: Seq<char>, t: Seq<char>)
    requires
        contains_text(b, t),
    ensures
        contains_text(a + b, t),
{
    let i = choose|i: int| 0 <= i && i + t.len() <= b.len() && #[trigger] b.subrange(i, i + t.len()) == t;
    assert((a + b).subrange(a.len() + i, a.len() + i + t.len()) =~= t);
}

/// Experiment 1's section opens with its heading and labelled numbers.
proof fn lemma_convergence_block(c: (String, String, String, String))
    ensures
        contains_text(
            convergence_section(c),
            "--- Experiment 1: Constant Sheaf Convergence ---\n"@ + "  Spectral gap: "@ + c.0@
                + "\n"@ + "  Initial error: "@ + c.1@ + "\n"@ + "  Final error (300 steps): "@
                + c.2@ + "\n"@ + "  Error ratio: "@ + c.3@ + "\n"@,
        ),
{
    let block1 = "--- Experiment 1: Constant Sheaf Convergence ---\n"@ + "  Spectral gap: "@ + c.0@
        + "\n"@ + "  Initial error: "@ + c.1@ + "\n"@ + "  Final error (300 steps): "@ + c.2@
        + "\n"@ + "  Error ratio: "@ + c.3@ + "\n"@;
    let end1 = "  ✅ Constant sheaf converges to consensus\n\n"@;
    assert(convergence_section(c) =~= Seq::<char>::empty() + block1 + end1);
    lemma_contains_middle(Seq::empty(), block1, end1);
}

/// Experiment 2's section opens with its heading and labelled results.
proof fn lemma_disagreement_block(d: (String, String))
    ensures
        contains_text(
            disagreement_section(d),
            "--- Experiment 2: Disagreement Sheaf (Ring) ---\n"@ + "  Spectral gap: "@ + d.0@
                + "\n"@ + "  Eigenvalues: "@ + d.1@ + "\n"@,
        ),
{
    let block2 = "--- Experiment 2: Disagreement Sheaf (Ring) ---\n"@ + "  Spectral gap: "@ + d.0@
        + "\n"@ + "  Eigenvalues: "@ + d.1@ + "\n"@;
    let end2 = "  ℹ️  Disagreement sheaf eigenvalues reveal topology\n\n"@;
    assert(disagreement_section(d) =~= Seq::<char>::empty() + block2 + end2);
    lemma_contains_middle(Seq::empty(), block2, end2);
}

proof fn lemma_topology_lines_contain(rows: Seq<(String, String, usize)>, k: int)
    requires
        0 <= k < rows.len(),
    ensures
        contains_text(
            topology_lines(rows),
            "  "@ + pad_left(rows[k].0@, 10) + ": spectral_gap="@ + rows[k].1@ + ", convergence_steps="@
                + decimal(rows[k].2 as nat) + "\n"@,
        ),
    decreases rows.len(),
{
    let init = rows.drop_last();
    let line = "  "@ + pad_left(rows[k].0@, 10) + ": spectral_gap="@ + rows[k].1@ + ", convergence_steps="@
        + decimal(rows[k].2 as nat) + "\n"@;
    if k == rows.len() - 1 {
        lemma_contains_middle(topology_lines(init), line, Seq::empty());
        assert(topology_lines(init) + line + Seq::empty() =~= topology_lines(rows));
    } else {
        assert(init[k] == rows[k]);
        lemma_topology_lines_contain(init, k);
        lemma_contains_extend(topology_lines(init), line, topology_line(rows.last()));
    }
}

proof fn lemma_gap_speed_lines_contain(rows: Seq<(String, usize)>, k: int)
    requires
        0 <= k < rows.len(),
    ensures
        contains_text(
            gap_speed_lines(rows),
            "  gap="@ + rows[k].0@ + "  steps="@ + decimal(rows[k].1 as nat) + "\n"@,
        ),
    decreases rows.len(),
{
    let init = rows.drop_last();
    let line = "  gap="@ + rows[k].0@ + "  steps="@ + decimal(rows[k].1 as nat) + "\n"@;
    if k == rows.len() - 1 {
        lemma_contains_middle(gap_speed_lines(init), line, Seq::empty());
        assert(gap_speed_lines(init) + line + Seq::empty() =~= gap_speed_lines(rows));
    } else {
        assert(init[k] == rows[k]);
        lemma_gap_speed_lines_contain(init, k);
        lemma_contains_extend(gap_speed_lines(init), line, gap_speed_line(rows.last()));
    }
}

proof fn lemma_stalk_dim_lines_contain(rows: Seq<(usize, String, usize)>, k: int)
    requires
        0 <= k < rows.len(),
    ensures
        contains_text(
            stalk_dim_lines(rows),
            "  dim="@ + decimal(rows[k].0 as nat) + ": spectral_gap="@ + rows[k].1@
                + ", convergence_steps="@ + decimal(rows[k].2 as nat) + "\n"@,
        ),
    decreases rows.len(),
{
    let init = rows.drop_last();
    let line = "  dim="@ + decimal(rows[k].0 as nat) + ": spectral_gap="@ + rows[k].1@
        + ", convergence_steps="@ + decimal(rows[k].2 as nat) + "\n"@;
    if k == rows.len() - 1 {
        lemma_contains_middle(stalk_dim_lines(init), line, Seq::empty());
        assert(stalk_dim_lines(init) + line + Seq::empty() =~= stalk_dim_lines(rows));
    } else {
        assert(init[k] == rows[k]);
        lemma_stalk_dim_lines_contain(init, k);
        lemma_contains_extend(stalk_dim_lines(init), line, stalk_dim_line(rows.last()));
    }
}

/// The report opens with its title and carries every result under the heading of its experiment and
/// next to its label: for experiment 1 the spectral gap, the initial error,
/// the final error after 300 steps and their ratio, in that order; for
/// experiment 2 the spectral gap and the eigenvalues; and for every row of
/// experiments 3, 4 and 5 a line with its topology name (right-aligned in
/// ten characters), stalk dimension, spectral gap and step count, the
/// integers written in decimal.
pub proof fn lemma_summary_contents(r: ExperimentResults)
    ensures
        summary_text(r).len() >= "=== si-sheaf-gossip: Experimental Results ===\n\n"@.len(),
        summary_text(r).take("=== si-sheaf-gossip: Experimental Results ===\n\n"@.len() as int)
            == "=== si-sheaf-gossip: Experimental Results ===\n\n"@,
        contains_text(
            summary_text(r),
            "--- Experiment 1: Constant Sheaf Convergence ---\n"@ + "  Spectral gap: "@
                + r.convergence.0@ + "\n"@ + "  Initial error: "@ + r.convergence.1@ + "\n"@
                + "  Final error (300 steps): "@ + r.convergence.2@ + "\n"@ + "  Error ratio: "@
                + r.convergence.3@ + "\n"@,
        ),
        contains_text(
            summary_text(r),
            "--- Experiment 2: Disagreement Sheaf (Ring) ---\n"@ + "  Spectral gap: "@
                + r.disagreement.0@ + "\n"@ + "  Eigenvalues: "@ + r.disagreement.1@ + "\n"@,
        ),
        forall|k: int|
            0 <= k < r.topologies@.len() ==> contains_text(
                summary_text(r),
                "  "@ + pad_left((#[trigger] r.topologies@[k]).0@, 10) + ": spectral_gap="@
                    + r.topologies@[k].1@ + ", convergence_steps="@ + decimal(
                    r.topologies@[k].2 as nat,
                ) + "\n"@,
            ),
        forall|k: int|
            0 <= k < r.gap_vs_speed@.len() ==> contains_text(
                summary_text(r),
                "  gap="@ + (#[trigger] r.gap_vs_speed@[k]).0@ + "  steps="@ + decimal(
                    r.gap_vs_speed@[k].1 as nat,
                ) + "\n"@,
            ),
        forall|k: int|
            0 <= k < r.stalk_dims@.len() ==> contains_text(
                summary_text(r),
                "  dim="@ + decimal((#[trigger] r.stalk_dims@[k]).0 as nat) + ": spectral_gap="@
                    + r.stalk_dims@[k].1@ + ", convergence_steps="@ + decimal(
                    r.stalk_dims@[k].2 as nat,
                ) + "\n"@,
            ),
{
    let title = "=== si-sheaf-gossip: Experimental Results ===\n\n"@;
    let conv = convergence_section(r.convergence);
    let dis = disagreement_section(r.disagreement);
    let top = topology_section(r.topologies@);
    let gs = gap_speed_section(r.gap_vs_speed@);
    let sd = stalk_dim_section(r.stalk_dims@);
    let key = key_insight();
    assert(summary_text(r) == title + conv + dis + top + gs + sd + key);
    assert(summary_text(r).take(title.len() as int) =~= title);
    lemma_convergence_block(r.convergence);
    lemma_disagreement_block(r.disagreement);
    let block1 = "--- Experiment 1: Constant Sheaf Convergence ---\n"@ + "  Spectral gap: "@
        + r.convergence.0@ + "\n"@ + "  Initial error: "@ + r.convergence.1@ + "\n"@
        + "  Final error (300 steps): "@ + r.convergence.2@ + "\n"@ + "  Error ratio: "@
        + r.convergence.3@ + "\n"@;
    let block2 = "--- Experiment 2: Disagreement Sheaf (Ring) ---\n"@ + "  Spectral gap: "@
        + r.disagreement.0@ + "\n"@ + "  Eigenvalues: "@ + r.disagreement.1@ + "\n"@;
    lemma_contains_prepend(title, conv, block1);
    lemma_contains_extend(title + conv, block1, dis);
    lemma_contains_extend(title + conv + dis, block1, top);
    lemma_contains_extend(title + conv + dis + top, block1, gs);
    lemma_contains_extend(title + conv + dis + top + gs, block1, sd);
    lemma_contains_extend(title + conv + dis + top + gs + sd, block1, key);
    lemma_contains_prepend(title + conv, dis, block2);
    lemma_contains_extend(title + conv + dis, block2, top);
    lemma_contains_extend(title + conv + dis + top, block2, gs);
    lemma_contains_extend(title + conv + dis + top + gs, block2, sd);
    lemma_contains_extend(title + conv + dis + top + gs + sd, block2, key);

    assert forall|k: int| 0 <= k < r.topologies@.len() implies contains_text(
        summary_text(r),
        "  "@ + pad_left((#[trigger] r.topologies@[k]).0@, 10) + ": spectral_gap="@
            + r.topologies@[k].1@ + ", convergence_steps="@ + decimal(r.topologies@[k].2 as nat)
            + "\n"@,
    ) by {
        let line = "  "@ + pad_left(r.topologies@[k].0@, 10) + ": spectral_gap="@
            + r.topologies@[k].1@ + ", convergence_steps="@ + decimal(r.topologies@[k].2 as nat)
            + "\n"@;
        lemma_topology_lines_contain(r.topologies@, k);
        let head = "--- Experiment 3: Topology Comparison ---\n"@;
        let foot = "  ✅ Complete > Star > Ring (higher gap = faster convergence)\n\n"@;
        lemma_contains_prepend(head, topology_lines(r.topologies@), line);
        lemma_contains_extend(head + topology_lines(r.topologies@), line, foot);
        lemma_contains_prepend(title + conv + dis, top, line);
        lemma_contains_extend(title + conv + dis + top, line, gs);
        lemma_contains_extend(title + conv + dis + top + gs, line, sd);
        lemma_contains_extend(title + conv + dis + top + gs + sd, line, key);
    }
    assert forall|k: int| 0 <= k < r.gap_vs_speed@.len() implies contains_text(
        summary_text(r),
        "  gap="@ + (#[trigger] r.gap_vs_speed@[k]).0@ + "  steps="@ + decimal(
            r.gap_vs_speed@[k].1 as nat,
        ) + "\n"@,
    ) by {
        let line = "  gap="@ + r.gap_vs_speed@[k].0@ + "  steps="@ + decimal(
            r.gap_vs_speed@[k].1 as nat,
        ) + "\n"@;
        lemma_gap_speed_lines_contain(r.gap_vs_speed@, k);
        let head = "--- Experiment 4: Spectral Gap vs Convergence Speed ---\n"@;
        let foot = "  ✅ Larger spectral gap → fewer steps to converge\n\n"@;
        lemma_contains_prepend(head, gap_speed_lines(r.gap_vs_speed@), line);
        lemma_contains_extend(head + gap_speed_lines(r.gap_vs_speed@), line, foot);
        lemma_contains_prepend(title + conv + dis + top, gs, line);
        lemma_contains_extend(title + conv + dis + top + gs, line, sd);
        lemma_contains_extend(title + conv + dis + top + gs + sd, line, key);
    }
    assert forall|k: int| 0 <= k < r.stalk_dims@.len() implies contains_text(
        summary_text(r),
        "  dim="@ + decimal((#[trigger] r.stalk_dims@[k]).0 as nat) + ": spectral_gap="@
            + r.stalk_dims@[k].1@ + ", convergence_steps="@ + decimal(r.stalk_dims@[k].2 as nat)
            + "\n"@,
    ) by {
        let line = "  dim="@ + decimal(r.stalk_dims@[k].0 as nat) + ": spectral_gap="@
            + r.stalk_dims@[k].1@ + ", convergence_steps="@ + decimal(r.stalk_dims@[k].2 as nat)
            + "\n"@;
        lemma_stalk_dim_lines_contain(r.stalk_dims@, k);
        let head = "--- Experiment 5: Stalk Dimension Effect ---\n"@;
        let foot = "  ✅ Higher stalk dimensions preserve convergence on complete graphs\n\n"@;
        lemma_contains_prepend(head, stalk_dim_lines(r.stalk_dims@), line);
        lemma_contains_extend(head + stalk_dim_lines(r.stalk_dims@), line, foot);
        lemma_contains_prepend(title + conv + dis + top + gs, sd, line);
        lemma_contains_extend(title + conv + dis + top + gs + sd, line, key);
    }
}

} // verus!
