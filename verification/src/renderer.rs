//! The renderer: flattens the task tree into the exact display lines of one
//! frame, and keeps the line count of the previous frame so that a caller can
//! erase exactly what the previous frame wrote.

use vstd::prelude::*;
use vstd::string::*;

use crate::registry::node_wf;
use crate::registry::roots_wf;
use crate::registry::wf_nodes;
use crate::registry::RootRegistry;
use crate::types::Task;
use crate::types::TaskDataView;
use crate::types::TaskState;

verus! {

/// Index of the first newline in `s`, or `s.len()` if there is none.
pub open spec fn first_newline(s: Seq<char>) -> nat
    decreases s.len(),
{
    if s.len() == 0 {
        0
    } else if s[0] == '\n' {
        0
    } else {
        1 + first_newline(s.drop_first())
    }
}

/// A terminated line loses one trailing carriage return.
pub open spec fn strip_cr(s: Seq<char>) -> Seq<char> {
    if s.len() > 0 && s.last() == '\r' {
        s.drop_last()
    } else {
        s
    }
}

/// The displayed lines of a text: pieces separated by newlines, where a piece
/// that was terminated by a newline loses one trailing carriage return, a
/// final unterminated piece is kept as it stands, and a trailing newline adds
/// no empty line.
pub open spec fn lines_of(s: Seq<char>) -> Seq<Seq<char>>
    decreases s.len(),
{
    if s.len() == 0 {
        Seq::empty()
    } else {
        let k = first_newline(s);
        if k >= s.len() {
            seq![s]
        } else {
            seq![strip_cr(s.subrange(0, k as int))] + lines_of(
                s.subrange(k as int + 1, s.len() as int),
            )
        }
    }
}

/// `first_newline` points at a newline and nothing before it is one.
proof fn lemma_first_newline(s: Seq<char>)
    ensures
        first_newline(s) <= s.len(),
        first_newline(s) < s.len() ==> s[first_newline(s) as int] == '\n',
        forall|j: int| 0 <= j < first_newline(s) ==> s[j] != '\n',
    decreases s.len(),
{
    if s.len() > 0 && s[0] != '\n' {
        lemma_first_newline(s.drop_first());
        assert forall|j: int| 0 <= j < first_newline(s) implies s[j] != '\n' by {
            if j > 0 {
                assert(s.drop_first()[j - 1] == s[j]);
            }
        }
    }
}

/// Converse direction: a newline with none before it is the first one.
proof fn lemma_first_newline_is(s: Seq<char>, j: int)
    requires
        0 <= j < s.len(),
        s[j] == '\n',
        forall|i: int| 0 <= i < j ==> s[i] != '\n',
    ensures
        first_newline(s) == j,
    decreases s.len(),
{
    if j > 0 {
        assert forall|i: int| 0 <= i < j - 1 implies s.drop_first()[i] != '\n' by {
            assert(s.drop_first()[i] == s[i + 1]);
        }
        lemma_first_newline_is(s.drop_first(), j - 1);
    }
}

/// A text with no newline at all has `first_newline == len`.
proof fn lemma_no_newline(s: Seq<char>)
    requires
        forall|i: int| 0 <= i < s.len() ==> s[i] != '\n',
    ensures
        first_newline(s) == s.len(),
    decreases s.len(),
{
    if s.len() > 0 {
        assert forall|i: int| 0 <= i < s.drop_first().len() implies s.drop_first()[i] != '\n' by {
            assert(s.drop_first()[i] == s[i + 1]);
        }
        lemma_no_newline(s.drop_first());
    }
}

/// Split a text into its displayed lines, exactly as `lines_of` describes.
pub fn split_lines(s: &str) -> (lines: Vec<String>)
    ensures
        lines.deep_view() == lines_of(s@),
{
    let n = s.unicode_len();
    let mut lines: Vec<String> = Vec::new();
    let mut start: usize = 0;
    let mut i: usize = 0;
    proof {
        assert(s@.subrange(0, n as int) =~= s@);
    }
    while i < n
        invariant
            n == s@.len(),
            start <= i <= n,
            forall|j: int| start <= j < i ==> s@[j] != '\n',
            lines.deep_view() + lines_of(s@.subrange(start as int, n as int)) == lines_of(s@),
        decreases n - i,
    {
        if s.get_char(i) == '\n' {
            let ghost t = s@.subrange(start as int, n as int);
            proof {
                assert forall|j: int| 0 <= j < i - start implies t[j] != '\n' by {
                    assert(t[j] == s@[start + j]);
                }
                assert(t[i - start] == s@[i as int]);
                lemma_first_newline_is(t, i - start);
            }
            let end = if i > start && s.get_char(i - 1) == '\r' {
                i - 1
            } else {
                i
            };
            let piece = s.substring_char(start, end);
            proof {
                if i > start && s@[i - 1] == '\r' {
                    assert(t.subrange(0, i - start).last() == s@[i - 1]);
                    assert(strip_cr(t.subrange(0, i - start)) =~= t.subrange(0, i - start
                    ).drop_last());
                    assert(piece@ =~= strip_cr(t.subrange(0, i - start)));
                } else {
                    if i - start > 0 {
                        assert(t.subrange(0, i - start).last() == s@[i - 1]);
                    }
                    assert(piece@ =~= strip_cr(t.subrange(0, i - start)));
                }
                assert(t.subrange(i - start + 1, t.len() as int) =~= s@.subrange(
                    i as int + 1,
                    n as int,
                ));
            }
            let ghost prev_dv = lines.deep_view();
            lines.push(piece.to_owned());
            proof {
                assert(lines.deep_view() =~= prev_dv.push(piece@));
                assert(lines.deep_view() + lines_of(s@.subrange(i as int + 1, n as int)) =~= (
                prev_dv + lines_of(t)));
            }
            start = i + 1;
        }
        i += 1;
    }
    let ghost t = s@.subrange(start as int, n as int);
    proof {
        assert forall|j: int| 0 <= j < t.len() implies t[j] != '\n' by {
            assert(t[j] == s@[start + j]);
        }
        lemma_no_newline(t);
    }
    if start < n {
        let piece = s.substring_char(start, n);
        let ghost prev_dv = lines.deep_view();
        lines.push(piece.to_owned());
        proof {
            assert(lines_of(t) =~= seq![t]);
            assert(lines.deep_view() =~= prev_dv.push(piece@));
            assert(lines.deep_view() =~= prev_dv + lines_of(t));
        }
    } else {
        proof {
            assert(lines.deep_view() + lines_of(t) =~= lines.deep_view());
        }
    }
    lines
}

/// Number of spinner animation frames.
pub open spec fn spinner_frame_count() -> int {
    10
}

/// The fixed ten-frame braille spinner sequence, by frame index.
pub open spec fn spinner_frame_spec(i: int) -> Seq<char> {
    if i == 0 {
        "⠋"@
    } else if i == 1 {
        "⠙"@
    } else if i == 2 {
        "⠹"@
    } else if i == 3 {
        "⠸"@
    } else if i == 4 {
        "⠼"@
    } else if i == 5 {
        "⠴"@
    } else if i == 6 {
        "⠦"@
    } else if i == 7 {
        "⠧"@
    } else if i == 8 {
        "⠇"@
    } else {
        "⠏"@
    }
}

/// The spinner frame shown at animation index `i`.
pub fn spinner_frame(i: usize) -> (f: &'static str)
    requires
        i < spinner_frame_count(),
    ensures
        f@ == spinner_frame_spec(i as int),
{
    if i == 0 {
        "⠋"
    } else if i == 1 {
        "⠙"
    } else if i == 2 {
        "⠹"
    } else if i == 3 {
        "⠸"
    } else if i == 4 {
        "⠼"
    } else if i == 5 {
        "⠴"
    } else if i == 6 {
        "⠦"
    } else if i == 7 {
        "⠧"
    } else if i == 8 {
        "⠇"
    } else {
        "⠏"
    }
}

/// The icon of a node's title line, chosen by state and by whether the node
/// has children; only a childless `Loading` node shows the spinner.
pub open spec fn icon_spec(state: TaskState, has_children: bool, spinner: int) -> Seq<char> {
    match state {
        TaskState::Pending => "◼"@,
        TaskState::Loading => if has_children {
            "❯"@
        } else {
            spinner_frame_spec(spinner)
        },
        TaskState::Success => if has_children {
            "❯"@
        } else {
            "✔"@
        },
        TaskState::Error => if has_children {
            "❯"@
        } else {
            "✖"@
        },
        TaskState::Warning => "⚠"@,
    }
}

/// Pick the icon for a title line.
pub fn icon(state: TaskState, has_children: bool, spinner: usize) -> (ic: &'static str)
    requires
        spinner < spinner_frame_count(),
    ensures
        ic@ == icon_spec(state, has_children, spinner as int),
{
    match state {
        TaskState::Pending => "◼",
        TaskState::Loading => if has_children {
            "❯"
        } else {
            spinner_frame(spinner)
        },
        TaskState::Success => if has_children {
            "❯"
        } else {
            "✔"
        },
        TaskState::Error => if has_children {
            "❯"
        } else {
            "✖"
        },
        TaskState::Warning => "⚠",
    }
}

/// Two spaces per tree depth.
pub open spec fn indent_spec(depth: int) -> Seq<char> {
    Seq::new(
        if depth >= 0 {
            (2 * depth) as nat
        } else {
            0
        },
        |i: int| ' ',
    )
}

/// Append the indentation of `depth` to a line under construction.
fn push_indent(out: &mut String, depth: usize)
    ensures
        final(out)@ == old(out)@ + indent_spec(depth as int),
{
    let mut d: usize = 0;
    proof {
        assert(out@ =~= old(out)@ + indent_spec(0));
    }
    while d < depth
        invariant
            d <= depth,
            out@ == old(out)@ + indent_spec(d as int),
        decreases depth - d,
    {
        out.append("  ");
        proof {
            reveal_strlit("  ");
            assert(out@ =~= old(out)@ + indent_spec(d as int + 1));
        }
        d += 1;
    }
}

/// The bracketed, de-emphasized status annotation after the title, if any.
pub open spec fn status_suffix_spec(status: Option<Seq<char>>) -> Seq<char> {
    match status {
        Option::Some(st) => " ["@ + st + "]"@,
        Option::None => Seq::empty(),
    }
}

/// A node's own title line: indentation, icon, a space, the title, and the
/// status suffix.
pub open spec fn title_line_spec(d: TaskDataView, depth: int, spinner: int) -> Seq<char> {
    indent_spec(depth) + icon_spec(d.state, d.children.len() > 0, spinner) + " "@ + d.title
        + status_suffix_spec(d.status)
}

/// One line of a node's output text: indented one level deeper than the
/// title, the first line prefixed with an arrow.
pub open spec fn output_line_at(out: Seq<char>, depth: int, i: int) -> Seq<char> {
    indent_spec(depth) + "  "@ + (if i == 0 {
        "→ "@
    } else {
        Seq::empty()
    }) + lines_of(out)[i]
}

/// All lines a node's output text contributes, in order.
pub open spec fn output_lines_spec(d: TaskDataView, depth: int) -> Seq<Seq<char>> {
    match d.output {
        Option::None => Seq::empty(),
        Option::Some(out) => Seq::new(lines_of(out).len(), |i: int| output_line_at(out, depth, i)),
    }
}

/// The lines of one node and, recursively, of its whole subtree: title line,
/// output lines, then each child's lines in order.
pub open spec fn node_lines_spec(nodes: Seq<Task>, idx: int, depth: int, spinner: int) -> Seq<
    Seq<char>,
>
    decreases nodes.len() - idx, 1int, 0int,
    when wf_nodes(nodes) && 0 <= idx < nodes.len()
{
    seq![title_line_spec(nodes[idx].data@, depth, spinner)] + output_lines_spec(
        nodes[idx].data@,
        depth,
    ) + children_lines_spec(nodes, idx, 0, depth + 1, spinner)
}

/// The lines of the children of `parent` from child position `k` on.
pub open spec fn children_lines_spec(
    nodes: Seq<Task>,
    parent: int,
    k: int,
    depth: int,
    spinner: int,
) -> Seq<Seq<char>>
    decreases nodes.len() - parent, 0int, nodes[parent].data.children@.len() - k,
    when wf_nodes(nodes) && 0 <= parent < nodes.len() && 0 <= k && node_wf(nodes, parent)
{
    let children = nodes[parent].data.children@;
    if k >= children.len() {
        Seq::empty()
    } else {
        node_lines_spec(nodes, children[k] as int, depth, spinner) + children_lines_spec(
            nodes,
            parent,
            k + 1,
            depth,
            spinner,
        )
    }
}

/// The lines of the whole frame, from root position `r` on.
pub open spec fn frame_rec(nodes: Seq<Task>, roots: Seq<usize>, r: int, spinner: int) -> Seq<
    Seq<char>,
>
    decreases roots.len() - r,
    when 0 <= r
{
    if r >= roots.len() {
        Seq::empty()
    } else {
        node_lines_spec(nodes, roots[r] as int, 0, spinner) + frame_rec(
            nodes,
            roots,
            r + 1,
            spinner,
        )
    }
}

/// One complete frame: every root's subtree, in registration order.
pub open spec fn frame_spec(nodes: Seq<Task>, roots: Seq<usize>, spinner: int) -> Seq<Seq<char>> {
    frame_rec(nodes, roots, 0, spinner)
}

/// Render the subtree below the node at `idx`, appending its lines.
fn render_task(reg: &RootRegistry, idx: usize, depth: usize, spinner: usize, lines: &mut Vec<String>)
    requires
        reg.wf(),
        idx < reg.nodes@.len(),
        spinner < spinner_frame_count(),
        depth <= idx,
    ensures
        final(lines).deep_view() == old(lines).deep_view() + node_lines_spec(
            reg.nodes@,
            idx as int,
            depth as int,
            spinner as int,
        ),
    decreases reg.nodes@.len() - idx,
{
    let ghost d = reg.nodes@[idx as int].data@;
    let has_children = reg.nodes[idx].data.children.len() > 0;
    let ic = icon(reg.nodes[idx].data.state, has_children, spinner);
    let mut line = String::new();
    push_indent(&mut line, depth);
    line.append(ic);
    line.append(" ");
    line.append(reg.nodes[idx].data.title.as_str());
    match &reg.nodes[idx].data.status {
        Option::Some(st) => {
            line.append(" [");
            line.append(st.as_str());
            line.append("]");
        },
        Option::None => {},
    }
    proof {
        assert(line@ =~= title_line_spec(d, depth as int, spinner as int));
    }
    let ghost dv0 = lines.deep_view();
    lines.push(line);
    proof {
        assert(lines.deep_view() =~= dv0 + seq![title_line_spec(d, depth as int, spinner as int)]);
    }
    match &reg.nodes[idx].data.output {
        Option::Some(out) => {
            let pieces = split_lines(out.as_str());
            let ghost dv1 = lines.deep_view();
            let mut pi: usize = 0;
            while pi < pieces.len()
                invariant
                    pieces.deep_view() == lines_of(out@),
                    pi <= pieces@.len(),
                    lines.deep_view() == dv1 + Seq::new(
                        pi as nat,
                        |i: int| output_line_at(out@, depth as int, i),
                    ),
                decreases pieces@.len() - pi,
            {
                let mut oline = String::new();
                push_indent(&mut oline, depth);
                oline.append("  ");
                if pi == 0 {
                    oline.append("→ ");
                }
                oline.append(pieces[pi].as_str());
                proof {
                    assert(pieces@[pi as int]@ == pieces.deep_view()[pi as int]);
                    assert(oline@ =~= output_line_at(out@, depth as int, pi as int));
                }
                let ghost dvp = lines.deep_view();
                lines.push(oline);
                proof {
                    assert(lines.deep_view() =~= dvp.push(
                        output_line_at(out@, depth as int, pi as int),
                    ));
                    assert(lines.deep_view() =~= dv1 + Seq::new(
                        pi as nat + 1,
                        |i: int| output_line_at(out@, depth as int, i),
                    ));
                }
                pi += 1;
            }
            proof {
                assert(Seq::new(pi as nat, |i: int| output_line_at(out@, depth as int, i))
                    =~= output_lines_spec(d, depth as int));
            }
        },
        Option::None => {
            proof {
                assert(output_lines_spec(d, depth as int) =~= Seq::<Seq<char>>::empty());
            }
        },
    }
    proof {
        assert(lines.deep_view() =~= dv0 + seq![
            title_line_spec(d, depth as int, spinner as int),
        ] + output_lines_spec(d, depth as int));
    }
    let ghost dv2 = lines.deep_view();
    let mut k: usize = 0;
    while k < reg.nodes[idx].data.children.len()
        invariant
            reg.wf(),
            idx < reg.nodes@.len(),
            spinner < spinner_frame_count(),
            depth <= idx,
            k <= reg.nodes@[idx as int].data.children@.len(),
            lines.deep_view() + children_lines_spec(
                reg.nodes@,
                idx as int,
                k as int,
                depth as int + 1,
                spinner as int,
            ) == dv2 + children_lines_spec(
                reg.nodes@,
                idx as int,
                0,
                depth as int + 1,
                spinner as int,
            ),
        decreases reg.nodes@[idx as int].data.children@.len() - k,
    {
        proof {
            assert(node_wf(reg.nodes@, idx as int));
        }
        let child = reg.nodes[idx].data.children[k];
        let ghost dvk = lines.deep_view();
        render_task(reg, child, depth + 1, spinner, lines);
        proof {
            assert(children_lines_spec(
                reg.nodes@,
                idx as int,
                k as int,
                depth as int + 1,
                spinner as int,
            ) == node_lines_spec(reg.nodes@, child as int, depth as int + 1, spinner as int)
                + children_lines_spec(
                reg.nodes@,
                idx as int,
                k as int + 1,
                depth as int + 1,
                spinner as int,
            ));
            assert(lines.deep_view() + children_lines_spec(
                reg.nodes@,
                idx as int,
                k as int + 1,
                depth as int + 1,
                spinner as int,
            ) =~= dv2 + children_lines_spec(
                reg.nodes@,
                idx as int,
                0,
                depth as int + 1,
                spinner as int,
            ));
        }
        k += 1;
    }
    proof {
        assert(children_lines_spec(
            reg.nodes@,
            idx as int,
            k as int,
            depth as int + 1,
            spinner as int,
        ) =~= Seq::<Seq<char>>::empty());
        assert(lines.deep_view() =~= old(lines).deep_view() + node_lines_spec(
            reg.nodes@,
            idx as int,
            depth as int,
            spinner as int,
        ));
    }
}

/// Every subtree contributes at least its title line, and that line comes
/// first.
proof fn lemma_node_lines_first(nodes: Seq<Task>, idx: int, depth: int, spinner: int)
    requires
        wf_nodes(nodes),
        0 <= idx < nodes.len(),
    ensures
        node_lines_spec(nodes, idx, depth, spinner).len() >= 1,
        node_lines_spec(nodes, idx, depth, spinner)[0] == title_line_spec(
            nodes[idx].data@,
            depth,
            spinner,
        ),
{
}

/// The line index at which root `k`'s title line stands in a frame: the sum
/// of the line counts of every earlier root's subtree.
pub open spec fn root_line_pos(nodes: Seq<Task>, roots: Seq<usize>, k: int, spinner: int) -> int
    decreases k,
{
    if k <= 0 {
        0
    } else {
        root_line_pos(nodes, roots, k - 1, spinner) + node_lines_spec(
            nodes,
            roots[k - 1] as int,
            0,
            spinner,
        ).len()
    }
}

proof fn lemma_frame_rec_root(nodes: Seq<Task>, roots: Seq<usize>, spinner: int, r: int, k: int)
    requires
        wf_nodes(nodes),
        roots_wf(nodes, roots),
        0 <= r <= k < roots.len(),
    ensures
        0 <= root_line_pos(nodes, roots, k, spinner) - root_line_pos(nodes, roots, r, spinner),
        root_line_pos(nodes, roots, k, spinner) - root_line_pos(nodes, roots, r, spinner)
            < frame_rec(nodes, roots, r, spinner).len(),
        frame_rec(nodes, roots, r, spinner)[root_line_pos(nodes, roots, k, spinner)
            - root_line_pos(nodes, roots, r, spinner)] == title_line_spec(
            nodes[roots[k] as int].data@,
            0,
            spinner,
        ),
    decreases k - r,
{
    lemma_node_lines_first(nodes, roots[r] as int, 0, spinner);
    if k > r {
        lemma_frame_rec_root(nodes, roots, spinner, r + 1, k);
        assert(root_line_pos(nodes, roots, r + 1, spinner) == root_line_pos(
            nodes,
            roots,
            r,
            spinner,
        ) + node_lines_spec(nodes, roots[r] as int, 0, spinner).len());
    }
}

/// Root tasks appear in the rendered frame in exactly the order they were
/// registered: root `k`'s title line stands at `root_line_pos(k)`, inside the
/// frame, and these positions strictly increase with `k` — independent of
/// the states the tasks have reached.
pub proof fn lemma_roots_render_in_order(nodes: Seq<Task>, roots: Seq<usize>, spinner: int, k: int)
    requires
        wf_nodes(nodes),
        roots_wf(nodes, roots),
        0 <= k < roots.len(),
    ensures
        0 <= root_line_pos(nodes, roots, k, spinner),
        root_line_pos(nodes, roots, k, spinner) < frame_spec(nodes, roots, spinner).len(),
        frame_spec(nodes, roots, spinner)[root_line_pos(nodes, roots, k, spinner)]
            == title_line_spec(nodes[roots[k] as int].data@, 0, spinner),
        k > 0 ==> root_line_pos(nodes, roots, k - 1, spinner) < root_line_pos(
            nodes,
            roots,
            k,
            spinner,
        ),
{
    lemma_frame_rec_root(nodes, roots, spinner, 0, k);
    if k > 0 {
        lemma_node_lines_first(nodes, roots[k - 1] as int, 0, spinner);
    }
}

/// The only kind of line that may differ between two frames of the same tree
/// rendered at spinner indices `s1` and `s2`: the title line, at some depth,
/// of a node that is still `Loading` and has no children.
pub open spec fn spinner_diff_line(
    nodes: Seq<Task>,
    l1: Seq<char>,
    l2: Seq<char>,
    s1: int,
    s2: int,
) -> bool {
    exists|idx: int, depth: int|
        0 <= idx < nodes.len() && nodes[idx].data@.state == TaskState::Loading
            && nodes[idx].data@.children.len() == 0 && l1 == #[trigger] title_line_spec(
            nodes[idx].data@,
            depth,
            s1,
        ) && l2 == title_line_spec(nodes[idx].data@, depth, s2)
}

proof fn lemma_node_lines_spinner(nodes: Seq<Task>, idx: int, depth: int, s1: int, s2: int)
    requires
        wf_nodes(nodes),
        0 <= idx < nodes.len(),
    ensures
        node_lines_spec(nodes, idx, depth, s1).len() == node_lines_spec(
            nodes,
            idx,
            depth,
            s2,
        ).len(),
        forall|i: int|
            0 <= i < node_lines_spec(nodes, idx, depth, s1).len() && node_lines_spec(
                nodes,
                idx,
                depth,
                s1,
            )[i] != node_lines_spec(nodes, idx, depth, s2)[i] ==> spinner_diff_line(
                nodes,
                node_lines_spec(nodes, idx, depth, s1)[i],
                node_lines_spec(nodes, idx, depth, s2)[i],
                s1,
                s2,
            ),
    decreases nodes.len() - idx, 1int, 0int,
{
    let a = node_lines_spec(nodes, idx, depth, s1);
    let b = node_lines_spec(nodes, idx, depth, s2);
    let d = nodes[idx].data@;
    let outs = output_lines_spec(d, depth);
    let c1 = children_lines_spec(nodes, idx, 0, depth + 1, s1);
    let c2 = children_lines_spec(nodes, idx, 0, depth + 1, s2);
    lemma_children_lines_spinner(nodes, idx, 0, depth + 1, s1, s2);
    assert forall|i: int| 0 <= i < a.len() && a[i] != b[i] implies spinner_diff_line(
        nodes,
        a[i],
        b[i],
        s1,
        s2,
    ) by {
        if i == 0 {
            if !(d.state == TaskState::Loading && d.children.len() == 0) {
                assert(icon_spec(d.state, d.children.len() > 0, s1) == icon_spec(
                    d.state,
                    d.children.len() > 0,
                    s2,
                ));
                assert(false);
            }
            assert(a[i] == title_line_spec(d, depth, s1));
            assert(b[i] == title_line_spec(d, depth, s2));
        } else if i < 1 + outs.len() {
            assert(a[i] == outs[i - 1]);
            assert(b[i] == outs[i - 1]);
            assert(false);
        } else {
            assert(a[i] == c1[i - 1 - outs.len()]);
            assert(b[i] == c2[i - 1 - outs.len()]);
        }
    }
}

proof fn lemma_children_lines_spinner(
    nodes: Seq<Task>,
    parent: int,
    k: int,
    depth: int,
    s1: int,
    s2: int,
)
    requires
        wf_nodes(nodes),
        0 <= parent < nodes.len(),
        0 <= k,
    ensures
        children_lines_spec(nodes, parent, k, depth, s1).len() == children_lines_spec(
            nodes,
            parent,
            k,
            depth,
            s2,
        ).len(),
        forall|i: int|
            0 <= i < children_lines_spec(nodes, parent, k, depth, s1).len()
                && children_lines_spec(nodes, parent, k, depth, s1)[i] != children_lines_spec(
                nodes,
                parent,
                k,
                depth,
                s2,
            )[i] ==> spinner_diff_line(
                nodes,
                children_lines_spec(nodes, parent, k, depth, s1)[i],
                children_lines_spec(nodes, parent, k, depth, s2)[i],
                s1,
                s2,
            ),
    decreases nodes.len() - parent, 0int, nodes[parent].data.children@.len() - k,
{
    let children = nodes[parent].data.children@;
    assert(node_wf(nodes, parent));
    if k < children.len() {
        let a = children_lines_spec(nodes, parent, k, depth, s1);
        let b = children_lines_spec(nodes, parent, k, depth, s2);
        let n1 = node_lines_spec(nodes, children[k] as int, depth, s1);
        let n2 = node_lines_spec(nodes, children[k] as int, depth, s2);
        let r1 = children_lines_spec(nodes, parent, k + 1, depth, s1);
        let r2 = children_lines_spec(nodes, parent, k + 1, depth, s2);
        lemma_node_lines_spinner(nodes, children[k] as int, depth, s1, s2);
        lemma_children_lines_spinner(nodes, parent, k + 1, depth, s1, s2);
        assert forall|i: int| 0 <= i < a.len() && a[i] != b[i] implies spinner_diff_line(
            nodes,
            a[i],
            b[i],
            s1,
            s2,
        ) by {
            if i < n1.len() {
                assert(a[i] == n1[i]);
                assert(b[i] == n2[i]);
            } else {
                assert(a[i] == r1[i - n1.len()]);
                assert(b[i] == r2[i - n1.len()]);
            }
        }
    }
}

proof fn lemma_frame_rec_spinner(nodes: Seq<Task>, roots: Seq<usize>, r: int, s1: int, s2: int)
    requires
        wf_nodes(nodes),
        roots_wf(nodes, roots),
        0 <= r,
    ensures
        frame_rec(nodes, roots, r, s1).len() == frame_rec(nodes, roots, r, s2).len(),
        forall|i: int|
            0 <= i < frame_rec(nodes, roots, r, s1).len() && frame_rec(nodes, roots, r, s1)[i]
                != frame_rec(nodes, roots, r, s2)[i] ==> spinner_diff_line(
                nodes,
                frame_rec(nodes, roots, r, s1)[i],
                frame_rec(nodes, roots, r, s2)[i],
                s1,
                s2,
            ),
    decreases roots.len() - r,
{
    if r < roots.len() {
        let a = frame_rec(nodes, roots, r, s1);
        let b = frame_rec(nodes, roots, r, s2);
        let n1 = node_lines_spec(nodes, roots[r] as int, 0, s1);
        let n2 = node_lines_spec(nodes, roots[r] as int, 0, s2);
        let r1 = frame_rec(nodes, roots, r + 1, s1);
        let r2 = frame_rec(nodes, roots, r + 1, s2);
        lemma_node_lines_spinner(nodes, roots[r] as int, 0, s1, s2);
        lemma_frame_rec_spinner(nodes, roots, r + 1, s1, s2);
        assert forall|i: int| 0 <= i < a.len() && a[i] != b[i] implies spinner_diff_line(
            nodes,
            a[i],
            b[i],
            s1,
            s2,
        ) by {
            if i < n1.len() {
                assert(a[i] == n1[i]);
                assert(b[i] == n2[i]);
            } else {
                assert(a[i] == r1[i - n1.len()]);
                assert(b[i] == r2[i - n1.len()]);
            }
        }
    }
}

/// Redrawing with no intervening state change is idempotent up to animation:
/// the two frames have the same number of lines, and any line where they
/// differ is the title line of a node that is still `Loading` and childless —
/// the only line on which the spinner index shows.
pub proof fn lemma_redraw_spinner_only(nodes: Seq<Task>, roots: Seq<usize>, s1: int, s2: int)
    requires
        wf_nodes(nodes),
        roots_wf(nodes, roots),
    ensures
        frame_spec(nodes, roots, s1).len() == frame_spec(nodes, roots, s2).len(),
        forall|i: int|
            0 <= i < frame_spec(nodes, roots, s1).len() && frame_spec(nodes, roots, s1)[i]
                != frame_spec(nodes, roots, s2)[i] ==> spinner_diff_line(
                nodes,
                frame_spec(nodes, roots, s1)[i],
                frame_spec(nodes, roots, s2)[i],
                s1,
                s2,
            ),
{
    lemma_frame_rec_spinner(nodes, roots, 0, s1, s2);
}

/// The renderer's own state: its snapshot of the root list, the spinner
/// animation index, and how many lines the previous frame wrote.
pub struct Renderer {
    pub tasks: Vec<usize>,
    pub spinner_frame: usize,
    pub last_line_count: usize,
}

impl Renderer {
    pub open spec fn wf(self) -> bool {
        self.spinner_frame < spinner_frame_count()
    }

    /// A renderer that has written nothing yet, at spinner index zero.
    pub fn new(tasks: Vec<usize>) -> (r: Renderer)
        ensures
            r.tasks@ == tasks@,
            r.spinner_frame == 0,
            r.last_line_count == 0,
            r.wf(),
    {
        Renderer { tasks, spinner_frame: 0, last_line_count: 0 }
    }

    /// Replace the snapshot of the root list; animation state and the
    /// previous frame's line count are kept.
    pub fn update_tasks(&mut self, tasks: Vec<usize>)
        ensures
            final(self).tasks@ == tasks@,
            final(self).spinner_frame == old(self).spinner_frame,
            final(self).last_line_count == old(self).last_line_count,
            final(self).wf() == old(self).wf(),
    {
        self.tasks = tasks;
    }

    /// Adopt a new snapshot of the root list only when its length changed.
    /// The root list is append-only, so an unchanged length means an
    /// identical list and the old snapshot can be kept.
    pub fn refresh_tasks(&mut self, roots: Vec<usize>)
        ensures
            final(self).tasks@ == (if old(self).tasks@.len() == roots@.len() {
                old(self).tasks@
            } else {
                roots@
            }),
            final(self).spinner_frame == old(self).spinner_frame,
            final(self).last_line_count == old(self).last_line_count,
            final(self).wf() == old(self).wf(),
    {
        if self.tasks.len() != roots.len() {
            self.tasks = roots;
        }
    }

    /// Produce one frame: the number of terminal lines to erase first —
    /// exactly what the previous frame wrote — and the new frame's lines.
    /// Records the new line count and advances the spinner, wrapping.
    pub fn render(&mut self, reg: &RootRegistry) -> (out: (usize, Vec<String>))
        requires
            old(self).wf(),
            reg.wf(),
            roots_wf(reg.nodes@, old(self).tasks@),
        ensures
            out.0 == old(self).last_line_count,
            out.1.deep_view() == frame_spec(
                reg.nodes@,
                old(self).tasks@,
                old(self).spinner_frame as int,
            ),
            final(self).last_line_count == out.1@.len(),
            final(self).spinner_frame == (old(self).spinner_frame + 1) % 10,
            final(self).tasks@ == old(self).tasks@,
            final(self).wf(),
    {
        let erase = self.last_line_count;
        let mut lines: Vec<String> = Vec::new();
        let mut r: usize = 0;
        while r < self.tasks.len()
            invariant
                *self == *old(self),
                self.wf(),
                reg.wf(),
                roots_wf(reg.nodes@, self.tasks@),
                r <= self.tasks@.len(),
                lines.deep_view() + frame_rec(
                    reg.nodes@,
                    self.tasks@,
                    r as int,
                    self.spinner_frame as int,
                ) == frame_spec(reg.nodes@, self.tasks@, self.spinner_frame as int),
            decreases self.tasks@.len() - r,
        {
            let root = self.tasks[r];
            render_task(reg, root, 0, self.spinner_frame, &mut lines);
            proof {
                assert(lines.deep_view() + frame_rec(
                    reg.nodes@,
                    self.tasks@,
                    r as int + 1,
                    self.spinner_frame as int,
                ) =~= frame_spec(reg.nodes@, self.tasks@, self.spinner_frame as int));
            }
            r += 1;
        }
        proof {
            assert(frame_rec(reg.nodes@, self.tasks@, r as int, self.spinner_frame as int)
                =~= Seq::<Seq<char>>::empty());
            assert(lines.deep_view() =~= frame_spec(
                reg.nodes@,
                self.tasks@,
                self.spinner_frame as int,
            ));
        }
        self.last_line_count = lines.len();
        self.spinner_frame = (self.spinner_frame + 1) % 10;
        (erase, lines)
    }
}

} // verus!
