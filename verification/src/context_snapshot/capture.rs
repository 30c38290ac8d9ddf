//! Capturing a snapshot from the compositor's tree of containers.
//!
//! Any descendant of a workspace with an application id or a window class is a
//! window; an empty one does not count. Split, tabbed and stacked containers have
//! neither and are descended through. The scratchpad workspace is left out.

use vstd::prelude::*;
use vstd::utf8::{
    decode_utf8, encode_utf8, encode_utf8_decode_utf8, encode_utf8_valid_utf8, valid_utf8,
};

use super::model::{ContextSnapshot, WindowSnapshot, WindowView};
use crate::stdtext::{from_utf8_lossy, utf8_lossy};
use crate::text;
use crate::time::UtcTime;
use crate::utf8::lemma_encoded;

verus! {

/// The name of the workspace that holds the scratchpad.
pub const SCRATCHPAD_WORKSPACE: &'static str = "__i3_scratch";

/// The kinds of container that the capture tells apart.
#[derive(Debug, Clone, Copy, PartialEq, Eq, Structural)]
pub enum NodeKind {
    Workspace,
    FloatingCon,
    Other,
}

/// A container of the compositor's tree.
#[derive(Debug)]
pub struct Node {
    pub id: i64,
    pub name: Option<String>,
    pub kind: NodeKind,
    pub focused: bool,
    /// The Wayland application id.
    pub app_id: Option<String>,
    /// The class of an X11 window.
    pub class: Option<String>,
    pub pid: Option<i32>,
    pub nodes: Vec<Node>,
    pub floating_nodes: Vec<Node>,
}

/// A window as the tree shows it.
pub struct Found {
    pub con_id: i64,
    pub workspace: Seq<char>,
    pub app_id: Seq<char>,
    pub title: Seq<char>,
    pub pid: Option<i32>,
    pub floating: bool,
}

/// An optional text, empty where there is none.
pub open spec fn text_or_empty(s: Option<String>) -> Seq<char> {
    match s {
        Some(x) => x@,
        None => Seq::empty(),
    }
}

/// An optional text, where it says something: an empty one counts as none.
pub open spec fn filled(s: Option<String>) -> Option<Seq<char>> {
    match s {
        Some(x) if x@.len() > 0 => Some(x@),
        _ => None,
    }
}

/// The application of a window node: its application id, else its class.
pub open spec fn node_app(node: Node) -> Option<Seq<char>> {
    match filled(node.app_id) {
        Some(a) => Some(a),
        None => filled(node.class),
    }
}

/// Whether a node is the scratchpad workspace.
pub open spec fn is_scratchpad(node: Node) -> bool {
    node.kind == NodeKind::Workspace && text_or_empty(node.name) == SCRATCHPAD_WORKSPACE@
}

/// The workspace that a node's children are on, where its own is `ws`.
pub open spec fn workspace_below(node: Node, ws: Option<Seq<char>>) -> Option<Seq<char>> {
    if node.kind == NodeKind::Workspace {
        Some(text_or_empty(node.name))
    } else {
        ws
    }
}

/// The window that a node itself is, if it is one.
pub open spec fn own_window(node: Node, ws: Option<Seq<char>>) -> Seq<Found> {
    if node.kind == NodeKind::Workspace || ws is None || node_app(node) is None {
        Seq::empty()
    } else {
        seq![
            Found {
                con_id: node.id,
                workspace: ws->0,
                app_id: node_app(node)->0,
                title: text_or_empty(node.name),
                pid: node.pid,
                floating: node.kind == NodeKind::FloatingCon,
            },
        ]
    }
}

/// The windows of a subtree: a node before its children, tiled children before
/// floating ones.
pub open spec fn windows_of(node: Node, ws: Option<Seq<char>>) -> Seq<Found>
    decreases node,
{
    if is_scratchpad(node) {
        Seq::empty()
    } else {
        let below = workspace_below(node, ws);
        own_window(node, ws) + windows_of_all(node.nodes@, below) + windows_of_all(
            node.floating_nodes@,
            below,
        )
    }
}

/// The windows of several subtrees, one after the other.
pub open spec fn windows_of_all(nodes: Seq<Node>, ws: Option<Seq<char>>) -> Seq<Found>
    decreases nodes,
{
    if nodes.len() == 0 {
        Seq::empty()
    } else {
        windows_of_all(nodes.drop_last(), ws) + windows_of(nodes.last(), ws)
    }
}

/// The workspace of the first focused node of a subtree.
pub open spec fn focus_of(node: Node, ws: Option<Seq<char>>) -> Option<Seq<char>>
    decreases node,
{
    if is_scratchpad(node) {
        None
    } else {
        let below = workspace_below(node, ws);
        if node.focused && below is Some {
            below
        } else {
            match focus_of_all(node.nodes@, below) {
                Some(f) => Some(f),
                None => focus_of_all(node.floating_nodes@, below),
            }
        }
    }
}

/// The workspace of the first focused node of several subtrees.
pub open spec fn focus_of_all(nodes: Seq<Node>, ws: Option<Seq<char>>) -> Option<Seq<char>>
    decreases nodes,
{
    if nodes.len() == 0 {
        None
    } else {
        match focus_of_all(nodes.drop_last(), ws) {
            Some(f) => Some(f),
            None => focus_of(nodes.last(), ws),
        }
    }
}

/// What a captured window says of the window that was found: all but the
/// command line, which is read from outside.
pub open spec fn describes(w: WindowView, f: Found) -> bool {
    &&& w.workspace == f.workspace
    &&& w.app_id == f.app_id
    &&& w.title == f.title
    &&& w.floating == f.floating
    &&& f.pid is None ==> w.cmdline is None
}

/// An optional text, empty where there is none.
fn or_empty(s: &Option<String>) -> (r: String)
    ensures
        r@ == text_or_empty(*s),
{
    match s {
        Some(x) => x.clone(),
        None => String::new(),
    }
}

/// A copy of an optional text, where it says something.
fn clone_filled(s: &Option<String>) -> (r: Option<String>)
    ensures
        r.deep_view() == filled(*s),
{
    match s {
        Some(x) => {
            if text::chars(x).len() > 0 {
                Some(x.clone())
            } else {
                None
            }
        },
        None => None,
    }
}

/// The application and the title of a window node, or nothing where the node is
/// no window.
pub fn window_from_node_for_restore(node: &Node) -> (r: Option<(String, String)>)
    ensures
        r.deep_view() == (match node_app(*node) {
            Some(app) => Some((app, text_or_empty(node.name))),
            None => None,
        }),
        r matches Some((app, _)) ==> app@.len() > 0,
{
    let app_id: String = match clone_filled(&node.app_id) {
        Some(a) => a,
        None => match clone_filled(&node.class) {
            Some(c) => c,
            None => {
                return None;
            },
        },
    };
    Some((app_id, or_empty(&node.name)))
}

/// The non-empty pieces of a byte string between its NUL bytes.
pub open spec fn nul_pieces(bytes: Seq<u8>) -> Seq<Seq<u8>> {
    nul_pieces_from(bytes, Seq::empty())
}

/// The same, where `piece` holds the bytes since the last NUL.
pub open spec fn nul_pieces_from(bytes: Seq<u8>, piece: Seq<u8>) -> Seq<Seq<u8>>
    decreases bytes.len(),
{
    let here = if piece.len() == 0 {
        Seq::empty()
    } else {
        seq![piece]
    };
    if bytes.len() == 0 {
        here
    } else if bytes[0] == 0 {
        here + nul_pieces_from(bytes.skip(1), Seq::empty())
    } else {
        nul_pieces_from(bytes.skip(1), piece.push(bytes[0]))
    }
}

/// Whether texts are what byte strings denote: a byte string that is UTF-8 is
/// decoded, in another what is no UTF-8 is replaced.
pub open spec fn read_as(pieces: Seq<Seq<u8>>, texts: Seq<Seq<char>>) -> bool {
    &&& texts == pieces.map_values(|p: Seq<u8>| utf8_lossy(p))
    &&& forall|i: int|
        0 <= i < pieces.len() && valid_utf8(#[trigger] pieces[i]) ==> texts[i] == decode_utf8(
            pieces[i],
        )
}

/// There are no pieces exactly where there are only NUL bytes.
proof fn lemma_no_pieces(bytes: Seq<u8>, piece: Seq<u8>)
    ensures
        nul_pieces_from(bytes, piece).len() == 0 <==> piece.len() == 0 && forall|i: int|
            0 <= i < bytes.len() ==> #[trigger] bytes[i] == 0,
    decreases bytes.len(),
{
    if bytes.len() > 0 {
        let rest = bytes.skip(1);
        lemma_no_pieces(rest, Seq::empty());
        lemma_no_pieces(rest, piece.push(bytes[0]));
        if bytes[0] == 0 {
            if forall|i: int| 0 <= i < rest.len() ==> #[trigger] rest[i] == 0 {
                assert forall|i: int| 0 <= i < bytes.len() implies #[trigger] bytes[i] == 0 by {
                    if i > 0 {
                        assert(rest[i - 1] == 0);
                    }
                }
            }
            if forall|i: int| 0 <= i < bytes.len() ==> #[trigger] bytes[i] == 0 {
                assert forall|i: int| 0 <= i < rest.len() implies #[trigger] rest[i] == 0 by {
                    assert(bytes[i + 1] == 0);
                }
            }
        }
    }
}

/// Reads one more piece.
fn push_piece(args: &mut Vec<String>, piece: &[u8], Ghost(pieces): Ghost<Seq<Seq<u8>>>)
    requires
        read_as(pieces, old(args).deep_view()),
    ensures
        read_as(pieces.push(piece@), final(args).deep_view()),
{
    let ghost before = args.deep_view();
    args.push(from_utf8_lossy(piece));
    proof {
        let lossy = |p: Seq<u8>| utf8_lossy(p);
        assert(args.deep_view() =~= before.push(utf8_lossy(piece@)));
        assert(pieces.push(piece@).map_values(lossy) =~= pieces.map_values(lossy).push(
            lossy(piece@),
        ));
        assert forall|i: int|
            0 <= i < pieces.push(piece@).len() && valid_utf8(
                #[trigger] pieces.push(piece@)[i],
            ) implies args.deep_view()[i] == decode_utf8(pieces.push(piece@)[i]) by {
            if i < pieces.len() {
                assert(valid_utf8(pieces[i]));
            }
        }
    }
}

/// Splits the contents of a process's `cmdline` file. Nothing where it holds no
/// argument.
pub fn parse_proc_cmdline(bytes: &[u8]) -> (r: Option<Vec<String>>)
    ensures
        r is None <==> nul_pieces(bytes@).len() == 0,
        r is None <==> forall|i: int| 0 <= i < bytes@.len() ==> #[trigger] bytes@[i] == 0,
        r matches Some(args) ==> read_as(nul_pieces(bytes@), args.deep_view()),
{
    let mut args: Vec<String> = Vec::new();
    let mut piece: Vec<u8> = Vec::new();
    let mut i: usize = 0;
    let ghost mut done: Seq<Seq<u8>> = Seq::empty();
    proof {
        assert(bytes@.skip(0) =~= bytes@);
        assert(done + nul_pieces_from(bytes@, piece@) =~= nul_pieces(bytes@));
        assert(args.deep_view() =~= done.map_values(|p: Seq<u8>| utf8_lossy(p)));
        lemma_no_pieces(bytes@, Seq::empty());
    }
    while i < bytes.len()
        invariant
            i <= bytes@.len(),
            read_as(done, args.deep_view()),
            done + nul_pieces_from(bytes@.skip(i as int), piece@) == nul_pieces(bytes@),
        decreases bytes@.len() - i,
    {
        let ghost before = done;
        let ghost piece0 = piece@;
        let ghost rest = bytes@.skip(i as int);
        proof {
            assert(rest.skip(1) =~= bytes@.skip(i + 1));
        }
        if bytes[i] == 0 {
            if piece.len() > 0 {
                push_piece(&mut args, &piece, Ghost(done));
                proof {
                    done = done.push(piece0);
                }
            }
            piece = Vec::new();
            proof {
                assert(piece@ =~= Seq::empty());
                assert(done + nul_pieces_from(bytes@.skip(i + 1), piece@) =~= before
                    + nul_pieces_from(rest, piece0));
            }
        } else {
            piece.push(bytes[i]);
        }
        i += 1;
    }
    if piece.len() > 0 {
        push_piece(&mut args, &piece, Ghost(done));
        proof {
            done = done.push(piece@);
        }
    }
    proof {
        assert(done =~= nul_pieces(bytes@));
        assert(args.deep_view().len() == args@.len());
    }
    if args.len() == 0 {
        None
    } else {
        Some(args)
    }
}

/// Captures the windows of a tree. `read_cmdline` is asked for the command line
/// of each window with a process id.
pub fn capture_from_tree<F: Fn(i32) -> Option<Vec<String>>>(
    name: &str,
    tree: &Node,
    read_cmdline: F,
    now: UtcTime,
) -> (r: ContextSnapshot)
    requires
        forall|pid: i32| call_requires(read_cmdline, (pid,)),
    ensures
        r.name@ == name@,
        r.captured_at == now,
        r.focused_workspace.deep_view() == focus_of(*tree, None),
        r.windows@.len() == windows_of(*tree, None).len(),
        forall|i: int|
            0 <= i < r.windows@.len() ==> captures(
                read_cmdline,
                #[trigger] r.windows@[i],
                windows_of(*tree, None)[i],
            ),
        forall|i: int| 0 <= i < r.windows@.len() ==> (#[trigger] r.windows@[i]).app_id@.len() > 0,
{
    let mut windows: Vec<WindowSnapshot> = Vec::new();
    let mut focused: Option<String> = None;
    let none: Option<String> = None;
    walk(tree, &none, &mut windows, &mut focused, &read_cmdline);
    proof {
        lemma_windows_are_known(*tree, None);
        assert forall|i: int| 0 <= i < windows@.len() implies (
        #[trigger] windows@[i]).app_id@.len() > 0 by {
            assert(captures(read_cmdline, windows@[i], windows_of(*tree, None)[i]));
        }
    }
    ContextSnapshot {
        name: text::owned(name),
        captured_at: now,
        focused_workspace: focused,
        windows,
    }
}

/// Whether `w` records the window `f`, with the command line that `read` gave
/// for its process.
pub open spec fn captures<F: Fn(i32) -> Option<Vec<String>>>(
    read: F,
    w: WindowSnapshot,
    f: Found,
) -> bool {
    &&& describes(w.deep_view(), f)
    &&& f.pid is Some ==> call_ensures(read, (f.pid->0,), w.cmdline)
}

fn walk<F: Fn(i32) -> Option<Vec<String>>>(
    node: &Node,
    workspace: &Option<String>,
    windows: &mut Vec<WindowSnapshot>,
    focused: &mut Option<String>,
    read_cmdline: &F,
)
    requires
        forall|pid: i32| call_requires(read_cmdline, (pid,)),
    ensures
        final(windows)@.len() == old(windows)@.len() + windows_of(
            *node,
            workspace.deep_view(),
        ).len(),
        forall|i: int|
            0 <= i < old(windows)@.len() ==> #[trigger] final(windows)@[i] == old(windows)@[i],
        forall|i: int|
            old(windows)@.len() <= i < final(windows)@.len() ==> captures(
                *read_cmdline,
                #[trigger] final(windows)@[i],
                windows_of(*node, workspace.deep_view())[i - old(windows)@.len()],
            ),
        final(focused).deep_view() == (match old(focused).deep_view() {
            Some(f) => Some(f),
            None => focus_of(*node, workspace.deep_view()),
        }),
    decreases node,
{
    let ghost ws = workspace.deep_view();
    let mut below: Option<String> = text::clone_opt(workspace);
    if node.kind == NodeKind::Workspace {
        let name = or_empty(&node.name);
        if text::same(&name, SCRATCHPAD_WORKSPACE) {
            return;
        }
        below = Some(name);
    } else {
        match workspace {
            Some(w) => {
                match window_from_node_for_restore(node) {
                    Some((app_id, title)) => {
                        let cmdline: Option<Vec<String>> = match node.pid {
                            Some(pid) => read_cmdline(pid),
                            None => None,
                        };
                        windows.push(
                            WindowSnapshot {
                                workspace: w.clone(),
                                app_id,
                                title,
                                cmdline,
                                floating: node.kind == NodeKind::FloatingCon,
                            },
                        );
                    },
                    None => {},
                }
            },
            None => {},
        }
    }
    if node.focused && focused.is_none() && below.is_some() {
        *focused = text::clone_opt(&below);
    }
    walk_all(&node.nodes, &below, windows, focused, read_cmdline);
    walk_all(&node.floating_nodes, &below, windows, focused, read_cmdline);
}

fn walk_all<F: Fn(i32) -> Option<Vec<String>>>(
    nodes: &Vec<Node>,
    workspace: &Option<String>,
    windows: &mut Vec<WindowSnapshot>,
    focused: &mut Option<String>,
    read_cmdline: &F,
)
    requires
        forall|pid: i32| call_requires(read_cmdline, (pid,)),
    ensures
        final(windows)@.len() == old(windows)@.len() + windows_of_all(
            nodes@,
            workspace.deep_view(),
        ).len(),
        forall|i: int|
            0 <= i < old(windows)@.len() ==> #[trigger] final(windows)@[i] == old(windows)@[i],
        forall|i: int|
            old(windows)@.len() <= i < final(windows)@.len() ==> captures(
                *read_cmdline,
                #[trigger] final(windows)@[i],
                windows_of_all(nodes@, workspace.deep_view())[i - old(windows)@.len()],
            ),
        final(focused).deep_view() == (match old(focused).deep_view() {
            Some(f) => Some(f),
            None => focus_of_all(nodes@, workspace.deep_view()),
        }),
    decreases nodes,
{
    let ghost w0 = windows@;
    let ghost f0 = focused.deep_view();
    let ghost ws = workspace.deep_view();
    let mut i: usize = 0;
    while i < nodes.len()
        invariant
            i <= nodes@.len(),
            ws == workspace.deep_view(),
            forall|pid: i32| call_requires(read_cmdline, (pid,)),
            windows@.len() == w0.len() + windows_of_all(nodes@.take(i as int), ws).len(),
            forall|k: int| 0 <= k < w0.len() ==> #[trigger] windows@[k] == w0[k],
            forall|k: int|
                w0.len() <= k < windows@.len() ==> captures(
                    *read_cmdline,
                    #[trigger] windows@[k],
                    windows_of_all(nodes@.take(i as int), ws)[k - w0.len()],
                ),
            focused.deep_view() == (match f0 {
                Some(f) => Some(f),
                None => focus_of_all(nodes@.take(i as int), ws),
            }),
        decreases nodes@.len() - i,
    {
        proof {
            assert(nodes@.take(i + 1).drop_last() =~= nodes@.take(i as int));
            assert(nodes@.take(i + 1).last() == nodes@[i as int]);
        }
        walk(&nodes[i], workspace, windows, focused, read_cmdline);
        i += 1;
    }
    assert(nodes@.take(i as int) =~= nodes@);
}

/// Every window of a subtree has an application.
pub proof fn lemma_windows_are_known(node: Node, ws: Option<Seq<char>>)
    ensures
        forall|i: int|
            0 <= i < windows_of(node, ws).len() ==> (#[trigger] windows_of(node, ws)[i]).app_id.len()
                > 0,
    decreases node,
{
    if !is_scratchpad(node) {
        let below = workspace_below(node, ws);
        lemma_windows_are_known_all(node.nodes@, below);
        lemma_windows_are_known_all(node.floating_nodes@, below);
    }
}

proof fn lemma_windows_are_known_all(nodes: Seq<Node>, ws: Option<Seq<char>>)
    ensures
        forall|i: int|
            0 <= i < windows_of_all(nodes, ws).len() ==> (
            #[trigger] windows_of_all(nodes, ws)[i]).app_id.len() > 0,
    decreases nodes,
{
    if nodes.len() > 0 {
        lemma_windows_are_known_all(nodes.drop_last(), ws);
        lemma_windows_are_known(nodes.last(), ws);
    }
}

// ---------------------------------------------------------------------------
// Laws
// ---------------------------------------------------------------------------

/// So many NUL bytes.
pub open spec fn nuls(n: nat) -> Seq<u8> {
    Seq::new(n, |i: int| 0u8)
}

/// Arguments as a `cmdline` file holds them: the UTF-8 of each, with so many NUL
/// bytes before the first, between two of them, and behind the last.
pub open spec fn laid_out(args: Seq<Seq<char>>, gaps: Seq<nat>) -> Seq<u8>
    decreases args.len(),
{
    if args.len() == 0 {
        nuls(gaps[0])
    } else {
        nuls(gaps[0]) + (encode_utf8(args[0]) + laid_out(args.drop_first(), gaps.drop_first()))
    }
}

proof fn lemma_skip_nuls(n: nat, rest: Seq<u8>)
    ensures
        nul_pieces(nuls(n) + rest) == nul_pieces(rest),
    decreases n,
{
    if n == 0 {
        assert(nuls(n) + rest =~= rest);
    } else {
        let all = nuls(n) + rest;
        assert(all.skip(1) =~= nuls((n - 1) as nat) + rest);
        lemma_skip_nuls((n - 1) as nat, rest);
        assert(nul_pieces(all) =~= nul_pieces(all.skip(1)));
    }
}

proof fn lemma_take_piece(x: Seq<u8>, rest: Seq<u8>, piece: Seq<u8>)
    requires
        !x.contains(0u8),
    ensures
        nul_pieces_from(x + rest, piece) == nul_pieces_from(rest, piece + x),
    decreases x.len(),
{
    if x.len() == 0 {
        assert(x + rest =~= rest);
        assert(piece + x =~= piece);
    } else {
        let all = x + rest;
        assert(x.contains(x[0]));
        assert(all.skip(1) =~= x.skip(1) + rest);
        assert(!x.skip(1).contains(0u8)) by {
            if x.skip(1).contains(0u8) {
                let k = choose|k: int| 0 <= k < x.skip(1).len() && x.skip(1)[k] == 0u8;
                assert(x[k + 1] == 0u8);
            }
        }
        lemma_take_piece(x.skip(1), rest, piece.push(x[0]));
        assert(piece.push(x[0]) + x.skip(1) =~= piece + x);
    }
}

/// Arguments that a program was started with are read back, however many NUL bytes
/// stand around them.
pub proof fn law_command_lines_read_back(args: Seq<Seq<char>>, gaps: Seq<nat>)
    requires
        gaps.len() == args.len() + 1,
        forall|k: int| 0 < k < args.len() ==> #[trigger] gaps[k] > 0,
        forall|k: int| 0 <= k < args.len() ==> (#[trigger] args[k]).len() > 0,
        forall|k: int| 0 <= k < args.len() ==> !(#[trigger] args[k]).contains('\0'),
    ensures
        nul_pieces(laid_out(args, gaps)) == args.map_values(|a: Seq<char>| encode_utf8(a)),
        forall|texts: Seq<Seq<char>>| #[trigger]
            read_as(nul_pieces(laid_out(args, gaps)), texts) ==> texts == args,
    decreases args.len(),
{
    let bytes = laid_out(args, gaps);
    let encode = |a: Seq<char>| encode_utf8(a);
    if args.len() == 0 {
        assert(nuls(gaps[0]) + Seq::<u8>::empty() =~= bytes);
        lemma_skip_nuls(gaps[0], Seq::empty());
        assert(nul_pieces(bytes) =~= args.map_values(encode));
    } else {
        let rest_args = args.drop_first();
        let rest_gaps = gaps.drop_first();
        let rest = laid_out(rest_args, rest_gaps);
        let x = encode_utf8(args[0]);
        assert forall|k: int| 0 < k < rest_args.len() implies #[trigger] rest_gaps[k] > 0 by {
            assert(gaps[k + 1] > 0);
        }
        assert forall|k: int| 0 <= k < rest_args.len() implies (#[trigger] rest_args[k]).len() > 0
            && !rest_args[k].contains('\0') by {
            assert(rest_args[k] == args[k + 1]);
        }
        law_command_lines_read_back(rest_args, rest_gaps);
        lemma_skip_nuls(gaps[0], x + rest);
        assert forall|i: int| 0 <= i < args[0].len() implies (#[trigger] args[0][i]) as u32
            != 0u8 as u32 by {
            assert(args[0].contains(args[0][i]));
            vstd::utf8::char_u32_cast(args[0][i], args[0][i] as u32);
        }
        lemma_encoded(args[0], 0u8);
        lemma_take_piece(x, rest, Seq::empty());
        assert(Seq::<u8>::empty() + x =~= x);
        assert(x.len() > 0);
        if rest_args.len() > 0 {
            assert(gaps[1] > 0);
            assert(rest_gaps[0] > 0);
            assert(rest[0] == 0);
        } else if rest.len() > 0 {
            assert(rest[0] == 0);
        }
        assert(nul_pieces_from(rest, x) =~= seq![x] + nul_pieces(rest));
        assert(args.map_values(encode) =~= seq![x] + rest_args.map_values(encode));
    }
    let pieces = nul_pieces(bytes);
    assert forall|texts: Seq<Seq<char>>| #[trigger] read_as(pieces, texts) implies texts
        == args by {
        assert(texts.len() == args.len());
        assert forall|i: int| 0 <= i < args.len() implies texts[i] == args[i] by {
            assert(pieces[i] == encode_utf8(args[i]));
            encode_utf8_valid_utf8(args[i]);
            encode_utf8_decode_utf8(args[i]);
        }
        assert(texts =~= args);
    }
}

/// What a node adds to the windows that are found: nothing of the scratchpad; itself,
/// where it stands on a workspace and has an application, by its Wayland name or else by
/// its X11 class; and then what its tiled and its floating children add, on the workspace
/// that it is or stands on.
pub proof fn law_windows_are_found_where_they_stand(node: Node, ws: Option<Seq<char>>)
    ensures
        ({
            let name = match node.name {
                Some(n) => n@,
                None => Seq::empty(),
            };
            let app = match node.app_id {
                Some(a) if a@.len() > 0 => Some(a@),
                _ => match node.class {
                    Some(c) if c@.len() > 0 => Some(c@),
                    _ => None,
                },
            };
            let is_workspace = node.kind == NodeKind::Workspace;
            let below = if is_workspace {
                Some(name)
            } else {
                ws
            };
            if is_workspace && name == "__i3_scratch"@ {
                windows_of(node, ws).len() == 0
            } else {
                windows_of(node, ws) =~= (if !is_workspace && ws is Some && app is Some {
                    seq![
                        Found {
                            con_id: node.id,
                            workspace: ws->0,
                            app_id: app->0,
                            title: name,
                            pid: node.pid,
                            floating: node.kind == NodeKind::FloatingCon,
                        },
                    ]
                } else {
                    Seq::empty()
                }) + windows_of_all(node.nodes@, below) + windows_of_all(
                    node.floating_nodes@,
                    below,
                )
            }
        }),
{
}

/// The workspace that has the focus is that of the first node that has it. The scratchpad
/// never counts.
pub proof fn law_the_focus_is_on_the_workspace_of_the_focused_node(
    node: Node,
    ws: Option<Seq<char>>,
)
    ensures
        ({
            let name = match node.name {
                Some(n) => n@,
                None => Seq::empty(),
            };
            let is_workspace = node.kind == NodeKind::Workspace;
            let below = if is_workspace {
                Some(name)
            } else {
                ws
            };
            if is_workspace && name == "__i3_scratch"@ {
                focus_of(node, ws) is None
            } else if node.focused && below is Some {
                focus_of(node, ws) == below
            } else if focus_of_all(node.nodes@, below) is Some {
                focus_of(node, ws) == focus_of_all(node.nodes@, below)
            } else {
                focus_of(node, ws) == focus_of_all(node.floating_nodes@, below)
            }
        }),
{
}

/// Children add what each of them adds, in order.
pub proof fn law_children_come_in_order(nodes: Seq<Node>, node: Node, ws: Option<Seq<char>>)
    ensures
        windows_of_all(Seq::empty(), ws).len() == 0,
        windows_of_all(nodes.push(node), ws) == windows_of_all(nodes, ws) + windows_of(node, ws),
        focus_of_all(Seq::empty(), ws) is None,
        focus_of_all(nodes.push(node), ws) == (if focus_of_all(nodes, ws) is Some {
            focus_of_all(nodes, ws)
        } else {
            focus_of(node, ws)
        }),
{
    assert(nodes.push(node).drop_last() =~= nodes);
}

/// A window is saved as it was found.
pub proof fn law_windows_are_saved_as_found(w: WindowView, f: Found)
    ensures
        describes(w, f) ==> w.workspace == f.workspace && w.app_id == f.app_id && w.title == f.title
            && w.floating == f.floating && (f.pid is None ==> w.cmdline is None),
{
}

} // verus!
