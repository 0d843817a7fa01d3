//! The response renderer: given the response data and the display options, it
//! decides what the output holds — a status line, a header block, the body —
//! and produces the final text, or routes the raw body to a file instead.
//!
//! The decision table: a status line is included when the method is HEAD or
//! headers were requested, unless suppressed; the header block is included
//! under the same condition; the body is included unless headers alone were
//! requested. A status/headers block and a body are separated by exactly one
//! blank line. When an output file is set, the raw body goes there (never
//! colorized) and not into the text.
//!
//! With colorization off the output is pinned exactly. With it on, each
//! colored piece passes through the color library, whose escape emission
//! depends on the environment; the contract then states the same assembly
//! over pieces that each embed the original text.

use vstd::prelude::*;
use vstd::string::*;

use crate::dispatch::Method;
use crate::outside::{colorize_json, esc_free, paint_blue, paint_cyan, paint_yellow, painted};
use crate::request::pairs_view;

verus! {

/// The plain data of one response: protocol version, status (code and
/// reason), headers in arrival order, and the decoded body text.
#[derive(Debug)]
pub struct ResponseInfo {
    pub version: String,
    pub status: String,
    pub headers: Vec<(String, String)>,
    pub body: String,
}

/// The spec-level image of `ResponseInfo`.
pub struct RespV {
    pub version: Seq<char>,
    pub status: Seq<char>,
    pub headers: Seq<(Seq<char>, Seq<char>)>,
    pub body: Seq<char>,
}

impl View for ResponseInfo {
    type V = RespV;

    open spec fn view(&self) -> RespV {
        RespV {
            version: self.version@,
            status: self.status@,
            headers: pairs_view(self.headers@),
            body: self.body@,
        }
    }
}

/// The display options. `show_headers` and `show_both` are mutually
/// exclusive; `suppress_info` only matters when headers are shown; an output
/// file diverts the body.
#[derive(Debug)]
pub struct RenderOptions {
    pub show_headers: bool,
    pub show_both: bool,
    pub suppress_info: bool,
    pub colorize: bool,
    pub out_file: Option<String>,
}

/// A pending file write: the raw response body, to be written to the path
/// with truncate-and-create semantics by the surrounding program.
#[derive(Debug)]
pub struct FileWrite {
    pub path: String,
    pub contents: String,
}

/// What rendering produced: the text for standard output, and the optional
/// file write.
#[derive(Debug)]
pub struct RenderOutput {
    pub text: String,
    pub write: Option<FileWrite>,
}

/// Whether the header block is included.
pub open spec fn include_headers(o: RenderOptions, m: Method) -> bool {
    o.show_headers || o.show_both || m == Method::Head
}

/// Whether the status line is included.
pub open spec fn include_status(o: RenderOptions, m: Method) -> bool {
    include_headers(o, m) && !o.suppress_info
}

/// Whether the body section is included (in the text or the file write).
pub open spec fn include_body(o: RenderOptions) -> bool {
    !o.show_headers
}

/// The status line: protocol version, a space, the status.
pub open spec fn status_line(version: Seq<char>, status: Seq<char>) -> Seq<char> {
    version + seq![' '] + status
}

/// One header as displayed: `Name: Value`.
pub open spec fn header_line(k: Seq<char>, v: Seq<char>) -> Seq<char> {
    k + seq![':', ' '] + v
}

/// Lines joined by a newline, with no trailing newline.
pub open spec fn join_lines(items: Seq<Seq<char>>) -> Seq<char>
    decreases items.len(),
{
    if items.len() == 0 {
        Seq::empty()
    } else if items.len() == 1 {
        items[0]
    } else {
        items[0] + seq!['\n'] + join_lines(items.drop_first())
    }
}

/// The items of the status/headers block: the status line, if any, then the
/// header lines.
pub open spec fn block_items(status: Option<Seq<char>>, lines: Seq<Seq<char>>) -> Seq<Seq<char>> {
    match status {
        Some(s) => seq![s] + lines,
        None => lines,
    }
}

/// The final text: the block, and the body when present, separated by
/// exactly one blank line when both are non-empty.
pub open spec fn assemble(block: Seq<char>, body: Option<Seq<char>>) -> Seq<char> {
    match body {
        None => block,
        Some(b) => if block.len() == 0 {
            b
        } else {
            block + seq!['\n', '\n'] + b
        },
    }
}

/// The header lines, uncolored.
pub open spec fn header_lines_plain(hs: Seq<(Seq<char>, Seq<char>)>) -> Seq<Seq<char>> {
    Seq::new(hs.len(), |i: int| header_line(hs[i].0, hs[i].1))
}

/// The exact text rendered with colorization off.
pub open spec fn spec_render_text_plain(iv: RespV, o: RenderOptions, m: Method) -> Seq<char> {
    let status = if include_status(o, m) {
        Some(status_line(iv.version, iv.status))
    } else {
        None
    };
    let lines = if include_headers(o, m) {
        header_lines_plain(iv.headers)
    } else {
        Seq::empty()
    };
    let body = if include_body(o) && o.out_file is None {
        Some(iv.body)
    } else {
        None
    };
    assemble(join_lines(block_items(status, lines)), body)
}

/// Whether `p` embeds `orig` between a prefix and a suffix — claimed only of
/// texts free of the escape character, since the color library rewrites
/// embedded reset sequences.
pub open spec fn painted_opt(orig: Seq<char>, p: Seq<char>) -> bool {
    esc_free(orig) ==> painted(orig, p)
}

/// Whether `out` is two painted pieces around the separator `mid`.
pub open spec fn joined_painted(a: Seq<char>, b: Seq<char>, mid: Seq<char>, out: Seq<char>) -> bool {
    exists|pa: Seq<char>, pb: Seq<char>|
        painted_opt(a, pa) && painted_opt(b, pb) && out == #[trigger] (pa + mid + pb)
}

/// Whether the colored pieces are faithful: the status line is painted
/// version and status around a space, and each header line painted name and
/// value around `: `.
pub open spec fn colored_pieces_ok(
    iv: RespV,
    o: RenderOptions,
    m: Method,
    sp: Seq<char>,
    lines: Seq<Seq<char>>,
) -> bool {
    (include_status(o, m) ==> joined_painted(iv.version, iv.status, seq![' '], sp))
        && (include_headers(o, m) ==> lines.len() == iv.headers.len() && (forall|i: int|
        0 <= i < lines.len() ==> joined_painted(
            iv.headers[i].0,
            iv.headers[i].1,
            seq![':', ' '],
            #[trigger] lines[i],
        )))
}

/// The same assembly as the plain rendering, over given pieces.
pub open spec fn colored_assembly(
    iv: RespV,
    o: RenderOptions,
    m: Method,
    sp: Seq<char>,
    lines: Seq<Seq<char>>,
    bp: Seq<char>,
) -> Seq<char> {
    let status = if include_status(o, m) {
        Some(sp)
    } else {
        None
    };
    let used = if include_headers(o, m) {
        lines
    } else {
        Seq::empty()
    };
    let body = if include_body(o) && o.out_file is None {
        Some(bp)
    } else {
        None
    };
    assemble(join_lines(block_items(status, used)), body)
}

/// The colorized rendering contract: the text is the decision table's
/// assembly over some pieces, each embedding the original text it colors
/// (the body piece is unconstrained: it passed through the JSON colorizer or
/// is the raw body).
pub open spec fn colored_render_ok(text: Seq<char>, iv: RespV, o: RenderOptions, m: Method) -> bool {
    exists|sp: Seq<char>, lines: Seq<Seq<char>>, bp: Seq<char>|
        #[trigger] colored_assembly(iv, o, m, sp, lines, bp) == text && colored_pieces_ok(
            iv,
            o,
            m,
            sp,
            lines,
        )
}

/// Law: with headers not requested, no output file, no colorization, and a
/// method other than HEAD, the rendered text is exactly the decoded body.
pub proof fn lemma_render_body_only(iv: RespV, o: RenderOptions, m: Method)
    requires
        !o.show_headers,
        !o.show_both,
        !o.colorize,
        o.out_file is None,
        m != Method::Head,
    ensures
        spec_render_text_plain(iv, o, m) == iv.body,
{
    assert(!include_headers(o, m));
    assert(block_items(None, Seq::<Seq<char>>::empty()) =~= Seq::<Seq<char>>::empty());
    assert(join_lines(Seq::<Seq<char>>::empty()).len() == 0);
}

/// Law: for a HEAD request the status line and the header block are rendered
/// whatever the header-display flags say (the status line unless it is
/// suppressed), and the body section — empty for a HEAD response — follows
/// only when headers alone were not requested.
pub proof fn lemma_render_head(iv: RespV, o: RenderOptions)
    requires
        !o.colorize,
        !o.suppress_info,
        o.out_file is None,
    ensures
        spec_render_text_plain(iv, o, Method::Head) == ({
            let block = join_lines(
                block_items(
                    Some(status_line(iv.version, iv.status)),
                    header_lines_plain(iv.headers),
                ),
            );
            if o.show_headers {
                block
            } else if block.len() == 0 {
                iv.body
            } else {
                block + seq!['\n', '\n'] + iv.body
            }
        }),
{
    assert(include_headers(o, Method::Head));
    assert(include_status(o, Method::Head));
}

proof fn lemma_join_lines_push(items: Seq<Seq<char>>, x: Seq<char>)
    ensures
        join_lines(items.push(x)) == (if items.len() == 0 {
            x
        } else {
            join_lines(items) + seq!['\n'] + x
        }),
    decreases items.len(),
{
    if items.len() == 0 {
        assert(items.push(x)[0] == x);
        assert(items.push(x).len() == 1);
    } else {
        assert(items.push(x)[0] == items[0]);
        assert(items.push(x).drop_first() =~= items.drop_first().push(x));
        lemma_join_lines_push(items.drop_first(), x);
        if items.len() == 1 {
            assert(items.drop_first().len() == 0);
            assert(join_lines(items.push(x)) == items[0] + seq!['\n'] + join_lines(
                items.drop_first().push(x),
            ));
            assert(join_lines(items.drop_first().push(x)) == x);
        } else {
            assert(join_lines(items.push(x)) == items[0] + seq!['\n'] + (join_lines(
                items.drop_first(),
            ) + seq!['\n'] + x));
            assert(items[0] + seq!['\n'] + (join_lines(items.drop_first()) + seq!['\n'] + x) =~= (
            items[0] + seq!['\n'] + join_lines(items.drop_first())) + seq!['\n'] + x);
        }
    }
}

/// Render one response. The two header-display options are mutually
/// exclusive by the caller's contract.
pub fn render(info: &ResponseInfo, opts: &RenderOptions, method: Method) -> (r: RenderOutput)
    requires
        !(opts.show_headers && opts.show_both),
    ensures
        (match r.write {
            Some(w) => include_body(*opts) && (opts.out_file matches Some(p) && w.path@ == p@)
                && w.contents@ == info@.body,
            None => !include_body(*opts) || opts.out_file is None,
        }),
        !opts.colorize ==> r.text@ == spec_render_text_plain(info@, *opts, method),
        opts.colorize ==> colored_render_ok(r.text@, info@, *opts, method),
{
    let ghost iv = info@;
    let inc_h = opts.show_headers || opts.show_both || method == Method::Head;
    let inc_s = inc_h && !opts.suppress_info;
    let inc_b = !opts.show_headers;

    let mut text = String::new();
    let ghost mut gitems = Seq::<Seq<char>>::empty();
    let ghost mut gstatus = None::<Seq<char>>;
    let ghost mut glines = Seq::<Seq<char>>::empty();

    if inc_s {
        let piece: String = if opts.colorize {
            let pv = paint_blue(info.version.as_str());
            let ps = paint_yellow(info.status.as_str());
            let mut sp = pv;
            sp.append(" ");
            sp.append(ps.as_str());
            proof {
                reveal_strlit(" ");
                assert(" "@ =~= seq![' ']);
                assert(sp@ == pv@ + seq![' '] + ps@);
                assert(joined_painted(iv.version, iv.status, seq![' '], sp@));
            }
            sp
        } else {
            let mut sp = info.version.clone();
            sp.append(" ");
            sp.append(info.status.as_str());
            proof {
                reveal_strlit(" ");
                assert(" "@ =~= seq![' ']);
                assert(sp@ == status_line(iv.version, iv.status));
            }
            sp
        };
        text.append(piece.as_str());
        proof {
            gstatus = Some(piece@);
            gitems = seq![piece@];
            assert(join_lines(gitems) =~= piece@);
        }
    }

    if inc_h {
        let mut i: usize = 0;
        while i < info.headers.len()
            invariant
                i <= info.headers@.len(),
                iv == info@,
                iv.headers.len() == info.headers@.len(),
                inc_s == include_status(*opts, method),
                glines.len() == i,
                gitems == block_items(gstatus, glines),
                gitems.len() == i + (if inc_s { 1int } else { 0int }),
                gstatus is Some <==> inc_s,
                (opts.colorize && inc_s) ==> joined_painted(
                    iv.version,
                    iv.status,
                    seq![' '],
                    gstatus.unwrap(),
                ),
                (!opts.colorize && inc_s) ==> gstatus == Some(status_line(iv.version, iv.status)),
                text@ == join_lines(gitems),
                opts.colorize ==> forall|j: int|
                    0 <= j < i ==> joined_painted(
                        iv.headers[j].0,
                        iv.headers[j].1,
                        seq![':', ' '],
                        #[trigger] glines[j],
                    ),
                !opts.colorize ==> glines =~= header_lines_plain(iv.headers).take(i as int),
            decreases info.headers@.len() - i,
        {
            if i > 0 || inc_s {
                text.append("\n");
            }
            let line: String = if opts.colorize {
                let pk = paint_cyan(info.headers[i].0.as_str());
                let pv = paint_yellow(info.headers[i].1.as_str());
                let mut l = pk;
                l.append(": ");
                l.append(pv.as_str());
                proof {
                    reveal_strlit(": ");
                    assert(": "@ =~= seq![':', ' ']);
                    assert(l@ == pk@ + seq![':', ' '] + pv@);
                    assert(iv.headers[i as int].0 == info.headers@[i as int].0@);
                    assert(iv.headers[i as int].1 == info.headers@[i as int].1@);
                    assert(joined_painted(
                        iv.headers[i as int].0,
                        iv.headers[i as int].1,
                        seq![':', ' '],
                        l@,
                    ));
                }
                l
            } else {
                let mut l = info.headers[i].0.clone();
                l.append(": ");
                l.append(info.headers[i].1.as_str());
                proof {
                    reveal_strlit(": ");
                    assert(": "@ =~= seq![':', ' ']);
                    assert(iv.headers[i as int].0 == info.headers@[i as int].0@);
                    assert(iv.headers[i as int].1 == info.headers@[i as int].1@);
                    assert(l@ == header_line(iv.headers[i as int].0, iv.headers[i as int].1));
                }
                l
            };
            text.append(line.as_str());
            proof {
                reveal_strlit("\n");
                assert("\n"@ =~= seq!['\n']);
                lemma_join_lines_push(gitems, line@);
                glines = glines.push(line@);
                gitems = gitems.push(line@);
                assert(gitems =~= block_items(gstatus, glines));
                assert(text@ =~= join_lines(gitems));
                if !opts.colorize {
                    assert(glines =~= header_lines_plain(iv.headers).take(i + 1));
                }
            }
            i = i + 1;
        }
        proof {
            if !opts.colorize {
                assert(header_lines_plain(iv.headers).take(iv.headers.len() as int) =~= header_lines_plain(iv.headers));
            }
        }
    }

    let mut write: Option<FileWrite> = None;
    let ghost mut gbody = None::<Seq<char>>;
    if inc_b {
        match &opts.out_file {
            Some(p) => {
                write = Some(FileWrite { path: p.clone(), contents: info.body.clone() });
            },
            None => {
                let bodytext: String = if opts.colorize {
                    match colorize_json(info.body.as_str()) {
                        Some(c) => c,
                        None => info.body.clone(),
                    }
                } else {
                    info.body.clone()
                };
                let ghost block = text@;
                if !text.as_str().is_empty() {
                    text.append("\n\n");
                }
                text.append(bodytext.as_str());
                proof {
                    reveal_strlit("\n\n");
                    assert("\n\n"@ =~= seq!['\n', '\n']);
                    gbody = Some(bodytext@);
                    assert(text@ =~= assemble(block, gbody));
                }
            },
        }
    }

    proof {
        assert(text@ =~= assemble(join_lines(block_items(gstatus, glines)), gbody));
        if opts.colorize {
            let wsp = match gstatus {
                Some(s) => s,
                None => Seq::<char>::empty(),
            };
            let wbp = match gbody {
                Some(b) => b,
                None => Seq::<char>::empty(),
            };
            assert(block_items(gstatus, glines) =~= block_items(
                if include_status(*opts, method) {
                    Some(wsp)
                } else {
                    None
                },
                if include_headers(*opts, method) {
                    glines
                } else {
                    Seq::<Seq<char>>::empty()
                },
            ));
            assert(colored_assembly(iv, *opts, method, wsp, glines, wbp) == text@);
            assert(colored_pieces_ok(iv, *opts, method, wsp, glines));
        } else {
            assert(text@ == spec_render_text_plain(iv, *opts, method));
        }
    }
    RenderOutput { text, write }
}

} // verus!
