//! The manifest wire format: a line-oriented structured text document.
//!
//! `manifest_text` is the canonical text of a manifest; `spec_parse` is the
//! parse, a superset of the canonical form: scalars may be plain or
//! double-quoted, record lines may carry the reference emitter's extra
//! two-space indent, an empty file list may be written `files: []`, and
//! the final line break may be missing. `encode_manifest` and
//! `decode_manifest` are the executable codec, pinned exactly to those two
//! functions. Decoding rejects any document whose schema-version line is
//! not the one this library writes, so an unknown schema version can never
//! fall back to current semantics.

use vstd::prelude::*;
use crate::text::{
    esc, unesc, dec_of, parse_dec, take_line, first_nl, no_nl, is_digit,
    lemma_esc_no_nl, lemma_unesc_esc, lemma_parse_dec_of, lemma_take_line_of,
    lemma_dec_of_digits,
    str_to_chars, chars_to_string, sub_chars, chars_eq, push_dec, push_esc,
    unesc_chars, parse_dec_chars, find_line_end, push_lit,
};
use crate::manifest::{
    DefinitionVersion, FileDefinition, FileRecordView, VersionDefinition, ManifestView,
};
use crate::errors::EngineError;

verus! {

// //////////////// //
// Text of a value  //
// //////////////// //

/// A double-quoted scalar.
pub open spec fn quoted(s: Seq<char>) -> Seq<char> {
    seq!['"'] + esc(s) + seq!['"']
}

/// One line: its text plus the terminating line break.
pub open spec fn line(s: Seq<char>) -> Seq<char> {
    s + seq!['\n']
}

/// The display-version line: `null` or a quoted scalar.
pub open spec fn dv_line(dv: Option<Seq<char>>) -> Seq<char> {
    match dv {
        None => "displayVersion: "@ + "null"@,
        Some(s) => "displayVersion: "@ + quoted(s),
    }
}

/// The six lines of one file record.
pub open spec fn record_text(r: FileRecordView) -> Seq<char> {
    line("- rPath: "@ + quoted(r.r_path))
    + line("  uLen: "@ + dec_of(r.u_len))
    + line("  uSha256: "@ + quoted(r.u_sha256))
    + line("  cAlgo: "@ + quoted(r.c_algo))
    + line("  cLen: "@ + dec_of(r.c_len))
    + line("  cSha256: "@ + quoted(r.c_sha256))
}

/// The record lines of a manifest, in order.
pub open spec fn records_text(rs: Seq<FileRecordView>) -> Seq<char>
    decreases rs.len(),
{
    if rs.len() == 0 {
        Seq::<char>::empty()
    } else {
        record_text(rs[0]) + records_text(rs.drop_first())
    }
}

/// The canonical text of a manifest.
pub open spec fn manifest_text(m: ManifestView) -> Seq<char> {
    line("version: 1"@)
    + line(dv_line(m.display_version))
    + line("files:"@)
    + records_text(m.files)
}

// /////////////// //
// Parse of a text //
// /////////////// //

/// Strip a required prefix off a line.
pub open spec fn parse_field(l: Seq<char>, prefix: Seq<char>) -> Option<Seq<char>> {
    if l.len() >= prefix.len() && l.take(prefix.len() as int) == prefix {
        Some(l.skip(prefix.len() as int))
    } else {
        None
    }
}

/// Read a double-quoted scalar: quotes stripped, body unescaped.
pub open spec fn parse_quoted(s: Seq<char>) -> Option<Seq<char>> {
    if s.len() >= 2 && s[0] == '"' && s.last() == '"' {
        unesc(s.subrange(1, s.len() - 1))
    } else {
        None
    }
}

/// Read a scalar: double-quoted when it opens with a quote, plain — the
/// rest of the line as written — otherwise.
pub open spec fn parse_scalar(rest: Seq<char>) -> Option<Seq<char>> {
    if rest.len() >= 1 && rest[0] == '"' {
        parse_quoted(rest)
    } else {
        Some(rest)
    }
}

/// A line holding a prefixed scalar, at either of the two indents the
/// reference emitters use for record lines.
pub open spec fn parse_sline(l: Seq<char>, prefix: Seq<char>) -> Option<Seq<char>> {
    match parse_field(l, prefix) {
        Some(rest) => parse_scalar(rest),
        None => match parse_field(l, "  "@) {
            Some(l2) => match parse_field(l2, prefix) {
                Some(rest) => parse_scalar(rest),
                None => None,
            },
            None => None,
        },
    }
}

/// A line holding a prefixed decimal number, at either indent.
pub open spec fn parse_nline(l: Seq<char>, prefix: Seq<char>) -> Option<u32> {
    match parse_field(l, prefix) {
        Some(rest) => parse_dec(rest),
        None => match parse_field(l, "  "@) {
            Some(l2) => match parse_field(l2, prefix) {
                Some(rest) => parse_dec(rest),
                None => None,
            },
            None => None,
        },
    }
}

/// The display-version line: `None` for `null`, the scalar otherwise.
pub open spec fn parse_dv(l: Seq<char>) -> Option<Option<Seq<char>>> {
    match parse_field(l, "displayVersion: "@) {
        Some(rest) => if rest == "null"@ {
            Some(None)
        } else {
            match parse_scalar(rest) {
                Some(s) => Some(Some(s)),
                None => None,
            }
        },
        None => None,
    }
}

/// Parse the record lines: six lines per record until the text ends.
pub open spec fn parse_records(s: Seq<char>) -> Option<Seq<FileRecordView>>
    decreases s.len(),
{
    if s.len() == 0 {
        Some(Seq::<FileRecordView>::empty())
    } else {
        match take_line(s) {
            None => None,
            Some((l1, s1)) => match parse_sline(l1, "- rPath: "@) {
                None => None,
                Some(r_path) => match take_line(s1) {
                    None => None,
                    Some((l2, s2)) => match parse_nline(l2, "  uLen: "@) {
                        None => None,
                        Some(u_len) => match take_line(s2) {
                            None => None,
                            Some((l3, s3)) => match parse_sline(l3, "  uSha256: "@) {
                                None => None,
                                Some(u_sha256) => match take_line(s3) {
                                    None => None,
                                    Some((l4, s4)) => match parse_sline(l4, "  cAlgo: "@) {
                                        None => None,
                                        Some(c_algo) => match take_line(s4) {
                                            None => None,
                                            Some((l5, s5)) => match parse_nline(l5, "  cLen: "@) {
                                                None => None,
                                                Some(c_len) => match take_line(s5) {
                                                    None => None,
                                                    Some((l6, s6)) => match parse_sline(l6, "  cSha256: "@) {
                                                        None => None,
                                                        Some(c_sha256) => match parse_records(s6) {
                                                            None => None,
                                                            Some(rest) => Some(
                                                                seq![FileRecordView {
                                                                    r_path,
                                                                    u_len,
                                                                    u_sha256,
                                                                    c_algo,
                                                                    c_len,
                                                                    c_sha256,
                                                                }] + rest,
                                                            ),
                                                        },
                                                    },
                                                },
                                            },
                                        },
                                    },
                                },
                            },
                        },
                    },
                },
            },
        }
    }
}

// ///////////////////// //
// Round-trip groundwork  //
// ///////////////////// //

proof fn lemma_no_nl_append(a: Seq<char>, b: Seq<char>)
    requires
        no_nl(a),
        no_nl(b),
    ensures
        no_nl(a + b),
{
    assert forall|j: int| 0 <= j < (a + b).len() implies (a + b)[j] != '\n' by {
        if j < a.len() {
            assert((a + b)[j] == a[j]);
        } else {
            assert((a + b)[j] == b[j - a.len()]);
        }
    }
}

/// Line-break-freedom of every literal label of the format.
proof fn lemma_label_facts()
    ensures
        no_nl("version: 1"@),
        no_nl("displayVersion: "@),
        no_nl("null"@),
        no_nl("files:"@),
        no_nl("- rPath: "@),
        no_nl("  uLen: "@),
        no_nl("  uSha256: "@),
        no_nl("  cAlgo: "@),
        no_nl("  cLen: "@),
        no_nl("  cSha256: "@),
        "null"@.len() == 4,
        "null"@[0] == 'n',
{
    reveal_strlit("version: 1");
    reveal_strlit("displayVersion: ");
    reveal_strlit("null");
    reveal_strlit("files:");
    reveal_strlit("- rPath: ");
    reveal_strlit("  uLen: ");
    reveal_strlit("  uSha256: ");
    reveal_strlit("  cAlgo: ");
    reveal_strlit("  cLen: ");
    reveal_strlit("  cSha256: ");
}

proof fn lemma_no_nl_quoted(s: Seq<char>)
    ensures
        no_nl(quoted(s)),
{
    lemma_esc_no_nl(s);
    let q = quoted(s);
    assert forall|j: int| 0 <= j < q.len() implies q[j] != '\n' by {
        if j == 0 {
            assert(q[0] == '"');
        } else if j < 1 + esc(s).len() {
            assert(q[j] == esc(s)[j - 1]);
        } else {
            assert(q[j] == '"');
        }
    }
}

proof fn lemma_no_nl_dec(n: u32)
    ensures
        no_nl(dec_of(n)),
{
    lemma_dec_of_digits(n);
    assert forall|j: int| 0 <= j < dec_of(n).len() implies dec_of(n)[j] != '\n' by {
        assert(is_digit(dec_of(n)[j]));
    }
}

/// Peeling one clean line off a document.
proof fn lemma_peel_line(a: Seq<char>, x: Seq<char>)
    requires
        no_nl(a),
    ensures
        take_line(line(a) + x) == Some((a, x)),
{
    lemma_take_line_of(a, x);
    assert(line(a) + x =~= a + seq!['\n'] + x);
}

proof fn lemma_parse_field_of(prefix: Seq<char>, rest: Seq<char>)
    ensures
        parse_field(prefix + rest, prefix) == Some(rest),
{
    let l = prefix + rest;
    assert(l.take(prefix.len() as int) =~= prefix);
    assert(l.skip(prefix.len() as int) =~= rest);
}

proof fn lemma_parse_quoted_of(s: Seq<char>)
    ensures
        parse_quoted(quoted(s)) == Some(s),
{
    let q = quoted(s);
    assert(q.len() == esc(s).len() + 2);
    assert(q[0] == '"');
    assert(q.last() == '"');
    assert(q.subrange(1, q.len() - 1) =~= esc(s));
    lemma_unesc_esc(s);
}

proof fn lemma_parse_sline_of(prefix: Seq<char>, s: Seq<char>)
    ensures
        parse_sline(prefix + quoted(s), prefix) == Some(s),
{
    lemma_parse_field_of(prefix, quoted(s));
    assert(quoted(s).len() >= 1);
    assert(quoted(s)[0] == '"');
    lemma_parse_quoted_of(s);
}

proof fn lemma_parse_nline_of(prefix: Seq<char>, n: u32)
    ensures
        parse_nline(prefix + dec_of(n), prefix) == Some(n),
{
    lemma_parse_field_of(prefix, dec_of(n));
    lemma_parse_dec_of(n);
}

/// Parsing one record's lines followed by any tail yields the record and
/// leaves the tail for the rest of the parse.
#[verifier::rlimit(100)]
#[verifier::spinoff_prover]
proof fn lemma_parse_records_step(r: FileRecordView, tail: Seq<char>)
    ensures
        parse_records(record_text(r) + tail) == (match parse_records(tail) {
            Some(rest) => Some(seq![r] + rest),
            None => None::<Seq<FileRecordView>>,
        }),
{
    lemma_label_facts();
    let a1 = "- rPath: "@ + quoted(r.r_path);
    let a2 = "  uLen: "@ + dec_of(r.u_len);
    let a3 = "  uSha256: "@ + quoted(r.u_sha256);
    let a4 = "  cAlgo: "@ + quoted(r.c_algo);
    let a5 = "  cLen: "@ + dec_of(r.c_len);
    let a6 = "  cSha256: "@ + quoted(r.c_sha256);

    assert(no_nl(a1)) by {
        lemma_no_nl_quoted(r.r_path);
        lemma_no_nl_append("- rPath: "@, quoted(r.r_path));
    }
    assert(no_nl(a2)) by {
        lemma_no_nl_dec(r.u_len);
        lemma_no_nl_append("  uLen: "@, dec_of(r.u_len));
    }
    assert(no_nl(a3)) by {
        lemma_no_nl_quoted(r.u_sha256);
        lemma_no_nl_append("  uSha256: "@, quoted(r.u_sha256));
    }
    assert(no_nl(a4)) by {
        lemma_no_nl_quoted(r.c_algo);
        lemma_no_nl_append("  cAlgo: "@, quoted(r.c_algo));
    }
    assert(no_nl(a5)) by {
        lemma_no_nl_dec(r.c_len);
        lemma_no_nl_append("  cLen: "@, dec_of(r.c_len));
    }
    assert(no_nl(a6)) by {
        lemma_no_nl_quoted(r.c_sha256);
        lemma_no_nl_append("  cSha256: "@, quoted(r.c_sha256));
    }

    let s = record_text(r) + tail;
    let x1 = line(a2) + (line(a3) + (line(a4) + (line(a5) + (line(a6) + tail))));
    assert(s =~= line(a1) + x1);
    lemma_peel_line(a1, x1);
    let x2 = line(a3) + (line(a4) + (line(a5) + (line(a6) + tail)));
    lemma_peel_line(a2, x2);
    let x3 = line(a4) + (line(a5) + (line(a6) + tail));
    lemma_peel_line(a3, x3);
    let x4 = line(a5) + (line(a6) + tail);
    lemma_peel_line(a4, x4);
    let x5 = line(a6) + tail;
    lemma_peel_line(a5, x5);
    lemma_peel_line(a6, tail);

    lemma_parse_sline_of("- rPath: "@, r.r_path);
    lemma_parse_nline_of("  uLen: "@, r.u_len);
    lemma_parse_sline_of("  uSha256: "@, r.u_sha256);
    lemma_parse_sline_of("  cAlgo: "@, r.c_algo);
    lemma_parse_nline_of("  cLen: "@, r.c_len);
    lemma_parse_sline_of("  cSha256: "@, r.c_sha256);

    assert(s.len() > 0) by {
        assert(line(a1).len() > 0);
    }
    assert(take_line(s) == Some((a1, x1)));
    assert(FileRecordView {
        r_path: r.r_path,
        u_len: r.u_len,
        u_sha256: r.u_sha256,
        c_algo: r.c_algo,
        c_len: r.c_len,
        c_sha256: r.c_sha256,
    } == r);
}

/// The record lines of `rs` parse back to exactly `rs`.
proof fn lemma_parse_records_text(rs: Seq<FileRecordView>)
    ensures
        parse_records(records_text(rs)) == Some(rs),
    decreases rs.len(),
{
    if rs.len() == 0 {
        assert(records_text(rs).len() == 0);
        assert(Seq::<FileRecordView>::empty() =~= rs);
    } else {
        lemma_parse_records_text(rs.drop_first());
        lemma_parse_records_step(rs[0], records_text(rs.drop_first()));
        assert(seq![rs[0]] + rs.drop_first() =~= rs);
    }
}

/// The text with a final line break supplied where the emitter left none.
pub open spec fn normalize(s: Seq<char>) -> Seq<char> {
    if s.len() > 0 && s.last() != '\n' {
        s.push('\n')
    } else {
        s
    }
}

/// The parse of a manifest document.
pub open spec fn spec_parse(s0: Seq<char>) -> Option<ManifestView> {
    let s = normalize(s0);
    match take_line(s) {
        None => None,
        Some((l0, r0)) => if l0 != "version: 1"@ {
            None
        } else {
            match take_line(r0) {
                None => None,
                Some((l1, r1)) => match parse_dv(l1) {
                    None => None,
                    Some(dv) => match take_line(r1) {
                        None => None,
                        Some((l2, r2)) => if l2 == "files:"@ {
                            match parse_records(r2) {
                                None => None,
                                Some(fs) => Some(ManifestView {
                                    version: DefinitionVersion::Version1,
                                    display_version: dv,
                                    files: fs,
                                }),
                            }
                        } else if l2 == "files: []"@ {
                            if r2.len() == 0 {
                                Some(ManifestView {
                                    version: DefinitionVersion::Version1,
                                    display_version: dv,
                                    files: Seq::<FileRecordView>::empty(),
                                })
                            } else {
                                None
                            }
                        } else {
                            None
                        },
                    },
                },
            }
        },
    }
}

proof fn lemma_records_text_last_nl(rs: Seq<FileRecordView>)
    ensures
        records_text(rs).len() > 0 ==> records_text(rs).last() == '\n',
    decreases rs.len(),
{
    if rs.len() > 0 {
        lemma_records_text_last_nl(rs.drop_first());
        let head = record_text(rs[0]);
        let tail = records_text(rs.drop_first());
        if tail.len() > 0 {
            assert((head + tail).last() == tail.last());
        } else {
            assert(head + tail =~= head);
            assert(head.last() == line("  cSha256: "@ + quoted(rs[0].c_sha256)).last());
        }
    }
}

/// The canonical text always ends with a line break, so supplying one
/// changes nothing.
proof fn lemma_manifest_text_norm(m: ManifestView)
    ensures
        normalize(manifest_text(m)) == manifest_text(m),
{
    let t = manifest_text(m);
    lemma_records_text_last_nl(m.files);
    if records_text(m.files).len() > 0 {
        assert(t.last() == records_text(m.files).last());
    } else {
        assert(t =~= line("version: 1"@) + line(dv_line(m.display_version)) + line("files:"@));
        assert(t.last() == '\n');
    }
}

/// Law: the canonical text of any manifest parses back to exactly that
/// manifest. Together with the codec's contracts this gives the round
/// trip `decode(encode(m)) == Ok(m)`.
pub proof fn lemma_parse_manifest_text(m: ManifestView)
    ensures
        spec_parse(manifest_text(m)) == Some(m),
{
    lemma_label_facts();
    lemma_manifest_text_norm(m);
    let dvl = dv_line(m.display_version);
    let recs = records_text(m.files);
    assert(no_nl(dvl)) by {
        match m.display_version {
            None => {
                lemma_no_nl_append("displayVersion: "@, "null"@);
            },
            Some(s) => {
                lemma_no_nl_quoted(s);
                lemma_no_nl_append("displayVersion: "@, quoted(s));
            },
        }
    }
    let s = manifest_text(m);
    assert(s =~= line("version: 1"@) + (line(dvl) + (line("files:"@) + recs)));
    lemma_peel_line("version: 1"@, line(dvl) + (line("files:"@) + recs));
    lemma_peel_line(dvl, line("files:"@) + recs);
    lemma_peel_line("files:"@, recs);
    assert(parse_dv(dvl) == Some(m.display_version)) by {
        match m.display_version {
            None => {
                lemma_parse_field_of("displayVersion: "@, "null"@);
            },
            Some(v) => {
                lemma_parse_field_of("displayVersion: "@, quoted(v));
                assert(quoted(v) != "null"@) by {
                    assert(quoted(v)[0] == '"');
                    assert("null"@[0] == 'n');
                }
                assert(quoted(v).len() >= 1 && quoted(v)[0] == '"');
                lemma_parse_quoted_of(v);
            },
        }
    }
    lemma_parse_records_text(m.files);
    assert(spec_parse(s) == Some(ManifestView {
        version: DefinitionVersion::Version1,
        display_version: m.display_version,
        files: m.files,
    }));
    assert(m.version == DefinitionVersion::Version1);
}

/// Law: only a document whose first line is the version-1 header can
/// decode. A schema version this library does not know — `2`, or a missing
/// header — is rejected, never read under version-1 semantics.
pub proof fn lemma_schema_version_guard(s: Seq<char>)
    ensures
        spec_parse(s) is Some ==> (take_line(normalize(s)) matches Some(p)
            && p.0 == "version: 1"@),
{
}

// //////////////// //
// Executable codec  //
// //////////////// //

fn push_quoted(out: &mut Vec<char>, s: &String)
    ensures
        final(out)@ == old(out)@ + quoted(s@),
{
    out.push('"');
    let cs = str_to_chars(s.as_str());
    push_esc(out, &cs);
    out.push('"');
    assert(out@ =~= old(out)@ + quoted(s@));
}

fn push_record(out: &mut Vec<char>, f: &FileDefinition)
    ensures
        final(out)@ == old(out)@ + record_text(f@),
{
    push_lit(out, "- rPath: ");
    push_quoted(out, &f.r_path);
    out.push('\n');
    push_lit(out, "  uLen: ");
    push_dec(out, f.u_len);
    out.push('\n');
    push_lit(out, "  uSha256: ");
    push_quoted(out, &f.u_sha256);
    out.push('\n');
    push_lit(out, "  cAlgo: ");
    push_quoted(out, &f.c_algo);
    out.push('\n');
    push_lit(out, "  cLen: ");
    push_dec(out, f.c_len);
    out.push('\n');
    push_lit(out, "  cSha256: ");
    push_quoted(out, &f.c_sha256);
    out.push('\n');
    assert(out@ =~= old(out)@ + record_text(f@));
}

proof fn lemma_records_text_snoc(rs: Seq<FileRecordView>, r: FileRecordView)
    ensures
        records_text(rs.push(r)) == records_text(rs) + record_text(r),
    decreases rs.len(),
{
    if rs.len() == 0 {
        assert(rs.push(r)[0] == r);
        assert(rs.push(r).drop_first() =~= Seq::<FileRecordView>::empty());
        assert(records_text(rs.push(r)) == record_text(r) + records_text(Seq::<FileRecordView>::empty()));
        assert(record_text(r) + Seq::<char>::empty() =~= record_text(r));
        assert(records_text(rs) + record_text(r) =~= record_text(r));
    } else {
        lemma_records_text_snoc(rs.drop_first(), r);
        assert(rs.push(r).drop_first() =~= rs.drop_first().push(r));
        assert(rs.push(r)[0] == rs[0]);
        assert(record_text(rs[0]) + (records_text(rs.drop_first()) + record_text(r))
            =~= (record_text(rs[0]) + records_text(rs.drop_first())) + record_text(r));
    }
}

/// Encode a manifest as its canonical wire text.
pub fn encode_manifest(m: &VersionDefinition) -> (r: String)
    ensures
        r@ == manifest_text(m@),
{
    let mut out: Vec<char> = Vec::new();
    push_lit(&mut out, "version: 1");
    out.push('\n');
    match &m.display_version {
        Option::None => {
            push_lit(&mut out, "displayVersion: ");
            push_lit(&mut out, "null");
        },
        Option::Some(dv) => {
            push_lit(&mut out, "displayVersion: ");
            push_quoted(&mut out, dv);
        },
    }
    out.push('\n');
    push_lit(&mut out, "files:");
    out.push('\n');
    let ghost header = line("version: 1"@) + line(dv_line(m@.display_version)) + line("files:"@);
    assert(out@ =~= header);
    let ghost fviews = m@.files;
    let mut i: usize = 0;
    while i < m.files.len()
        invariant
            i <= m.files@.len(),
            fviews == m@.files,
            fviews == m.files@.map_values(|f: FileDefinition| f@),
            out@ == header + records_text(fviews.take(i as int)),
        decreases m.files@.len() - i,
    {
        push_record(&mut out, &m.files[i]);
        proof {
            lemma_records_text_snoc(fviews.take(i as int), fviews[i as int]);
            assert(fviews.take(i + 1 as int) =~= fviews.take(i as int).push(fviews[i as int]));
            assert(fviews[i as int] == m.files@[i as int]@);
            assert(out@ =~= header + records_text(fviews.take(i + 1 as int)));
        }
        i = i + 1;
    }
    proof {
        assert(fviews.take(fviews.len() as int) =~= fviews);
        assert(header + records_text(fviews) =~= manifest_text(m@));
    }
    chars_to_string(&out)
}

/// Extract the line starting at `pos` and the position after its break.
fn next_line(v: &Vec<char>, pos: usize) -> (r: Option<(Vec<char>, usize)>)
    requires
        pos <= v@.len(),
    ensures
        match r {
            Some(lp) => take_line(v@.skip(pos as int)) == Some((lp.0@, v@.skip(lp.1 as int)))
                && pos < lp.1 <= v@.len(),
            None => take_line(v@.skip(pos as int)) is None,
        },
{
    let n = v.len();
    match find_line_end(v, pos) {
        Option::Some(k) => {
            let l = sub_chars(v, pos, k);
            assert(k < n);
            proof {
                let rem = v@.skip(pos as int);
                assert(first_nl(rem) == k - pos);
                assert(rem.take(k - pos) =~= v@.subrange(pos as int, k as int));
                assert(rem.skip(k - pos + 1) =~= v@.skip(k + 1 as int));
            }
            Some((l, k + 1))
        },
        Option::None => None,
    }
}

/// Strip a literal prefix off a line.
fn strip_prefix_lit(l: &Vec<char>, prefix: &str) -> (r: Option<Vec<char>>)
    ensures
        match r {
            Some(rest) => parse_field(l@, prefix@) == Some(rest@),
            None => parse_field(l@, prefix@) is None,
        },
{
    let p = str_to_chars(prefix);
    if l.len() < p.len() {
        return None;
    }
    let head = sub_chars(l, 0, p.len());
    assert(head@ =~= l@.take(p@.len() as int));
    if !chars_eq(&head, &p) {
        return None;
    }
    let rest = sub_chars(l, p.len(), l.len());
    assert(rest@ =~= l@.skip(p@.len() as int));
    Some(rest)
}

/// Read a double-quoted scalar.
fn read_quoted(rest: &Vec<char>) -> (r: Option<String>)
    ensures
        match r {
            Some(s) => parse_quoted(rest@) == Some(s@),
            None => parse_quoted(rest@) is None,
        },
{
    if rest.len() < 2 {
        return None;
    }
    if rest[0] != '"' {
        return None;
    }
    if rest[rest.len() - 1] != '"' {
        assert(rest@.last() != '"');
        return None;
    }
    let mid = sub_chars(rest, 1, rest.len() - 1);
    match unesc_chars(&mid) {
        Option::Some(u) => Some(chars_to_string(&u)),
        Option::None => None,
    }
}

/// Read a scalar field value: quoted or plain.
fn read_scalar(rest: &Vec<char>) -> (r: Option<String>)
    ensures
        match r {
            Some(s) => parse_scalar(rest@) == Some(s@),
            None => parse_scalar(rest@) is None,
        },
{
    if rest.len() >= 1 && rest[0] == '"' {
        read_quoted(rest)
    } else {
        Some(chars_to_string(rest))
    }
}

/// A line holding a prefixed scalar, at either accepted indent.
fn read_sline(l: &Vec<char>, prefix: &str) -> (r: Option<String>)
    ensures
        match r {
            Some(s) => parse_sline(l@, prefix@) == Some(s@),
            None => parse_sline(l@, prefix@) is None,
        },
{
    match strip_prefix_lit(l, prefix) {
        Option::Some(rest) => read_scalar(&rest),
        Option::None => match strip_prefix_lit(l, "  ") {
            Option::Some(l2) => match strip_prefix_lit(&l2, prefix) {
                Option::Some(rest) => read_scalar(&rest),
                Option::None => None,
            },
            Option::None => None,
        },
    }
}

/// A line holding a prefixed decimal number, at either accepted indent.
fn read_nline(l: &Vec<char>, prefix: &str) -> (r: Option<u32>)
    ensures
        match r {
            Some(n) => parse_nline(l@, prefix@) == Some(n),
            None => parse_nline(l@, prefix@) is None,
        },
{
    match strip_prefix_lit(l, prefix) {
        Option::Some(rest) => parse_dec_chars(&rest),
        Option::None => match strip_prefix_lit(l, "  ") {
            Option::Some(l2) => match strip_prefix_lit(&l2, prefix) {
                Option::Some(rest) => parse_dec_chars(&rest),
                Option::None => None,
            },
            Option::None => None,
        },
    }
}

/// Prefix every value inside an optional record-sequence suffix.
pub open spec fn opt_prep_records(
    p: Seq<FileRecordView>,
    o: Option<Seq<FileRecordView>>,
) -> Option<Seq<FileRecordView>> {
    match o {
        Some(t) => Some(p + t),
        None => None,
    }
}

fn parse_error(msg: &str) -> (r: EngineError)
    ensures
        r matches EngineError::ParseError(_),
{
    EngineError::ParseError(msg.to_owned())
}

/// Decode a manifest document.
///
/// Succeeds exactly on the parses of `spec_parse` — the canonical form
/// and the reference emitters' variants of it; any other document, a
/// missing or unknown schema version among them, is a `ParseError`.
#[verifier::rlimit(100)]
#[verifier::spinoff_prover]
pub fn decode_manifest(s: &str) -> (r: Result<VersionDefinition, EngineError>)
    ensures
        match r {
            Ok(m) => spec_parse(s@) == Some(m@),
            Err(e) => spec_parse(s@) is None && e matches EngineError::ParseError(_),
        },
{
    let mut v = str_to_chars(s);
    if v.len() > 0 && v[v.len() - 1] != '\n' {
        assert(v@.last() != '\n');
        v.push('\n');
    }
    assert(v@ == normalize(s@));
    proof {
        assert(v@.skip(0) =~= v@);
    }
    let (l0, p1) = match next_line(&v, 0) {
        Option::Some(x) => x,
        Option::None => {
            return Err(parse_error("missing schema version line"));
        },
    };
    let ver_lit = str_to_chars("version: 1");
    if !chars_eq(&l0, &ver_lit) {
        return Err(parse_error("unsupported schema version"));
    }
    let (l1, p2) = match next_line(&v, p1) {
        Option::Some(x) => x,
        Option::None => {
            return Err(parse_error("missing display version line"));
        },
    };
    let display_version: Option<String> = match strip_prefix_lit(&l1, "displayVersion: ") {
        Option::Some(rest) => {
            let null_lit = str_to_chars("null");
            if chars_eq(&rest, &null_lit) {
                None
            } else {
                match read_scalar(&rest) {
                    Option::Some(dv) => Some(dv),
                    Option::None => {
                        return Err(parse_error("bad display version"));
                    },
                }
            }
        },
        Option::None => {
            return Err(parse_error("missing display version"));
        },
    };
    let (l2, p3) = match next_line(&v, p2) {
        Option::Some(x) => x,
        Option::None => {
            return Err(parse_error("missing file list"));
        },
    };
    let files_lit = str_to_chars("files:");
    let files_empty_lit = str_to_chars("files: []");
    let files: Vec<FileDefinition> = if chars_eq(&l2, &files_lit) {
        match read_all_records(&v, p3) {
            Result::Ok(fs) => fs,
            Result::Err(e) => {
                return Err(e);
            },
        }
    } else if chars_eq(&l2, &files_empty_lit) {
        if p3 < v.len() {
            assert(v@.skip(p3 as int).len() > 0);
            return Err(parse_error("unexpected text after the file list"));
        }
        assert(v@.skip(p3 as int) =~= Seq::<char>::empty());
        Vec::new()
    } else {
        return Err(parse_error("missing file list"));
    };
    let m = VersionDefinition {
        version: DefinitionVersion::Version1,
        display_version,
        files,
    };
    proof {
        if files@.len() == 0 {
            assert(files@.map_values(|f: FileDefinition| f@)
                =~= Seq::<FileRecordView>::empty());
        }
    }
    assert(spec_parse(s@) == Some(m@));
    Ok(m)
}

/// Read file records from `start` to the end of the document.
#[verifier::rlimit(100)]
#[verifier::spinoff_prover]
fn read_all_records(v: &Vec<char>, start: usize) -> (r: Result<Vec<FileDefinition>, EngineError>)
    requires
        start <= v@.len(),
    ensures
        match r {
            Ok(files) => parse_records(v@.skip(start as int))
                == Some(files@.map_values(|f: FileDefinition| f@)),
            Err(e) => parse_records(v@.skip(start as int)) is None
                && e matches EngineError::ParseError(_),
        },
{
    let ghost r2 = v@.skip(start as int);
    let mut files: Vec<FileDefinition> = Vec::new();
    let mut pos: usize = start;
    proof {
        assert(files@.map_values(|f: FileDefinition| f@) =~= Seq::<FileRecordView>::empty());
        match parse_records(r2) {
            Some(t) => {
                assert(Seq::<FileRecordView>::empty() + t =~= t);
            },
            None => {},
        }
    }
    while pos < v.len()
        invariant
            start <= pos <= v@.len(),
            r2 == v@.skip(start as int),
            parse_records(r2) == opt_prep_records(
                files@.map_values(|f: FileDefinition| f@),
                parse_records(v@.skip(pos as int)),
            ),
        decreases v@.len() - pos,
    {
        let ghost fv0 = files@.map_values(|f: FileDefinition| f@);
        let (fd, q6) = match read_record(v, pos) {
            Result::Ok(x) => x,
            Result::Err(e) => {
                return Err(e);
            },
        };
        proof {
            let rem6 = v@.skip(q6 as int);
            match parse_records(rem6) {
                Some(t) => {
                    assert(fv0 + (seq![fd@] + t) =~= (fv0 + seq![fd@]) + t);
                },
                None => {},
            }
            assert(files@.push(fd).map_values(|f: FileDefinition| f@)
                =~= fv0 + seq![fd@]);
        }
        files.push(fd);
        pos = q6;
    }
    proof {
        assert(v@.skip(v@.len() as int) =~= Seq::<char>::empty());
        assert(parse_records(v@.skip(pos as int)) == Some(Seq::<FileRecordView>::empty()));
        let fv = files@.map_values(|f: FileDefinition| f@);
        assert(fv + Seq::<FileRecordView>::empty() =~= fv);
    }
    Ok(files)
}

/// Read the six lines of one file record starting at `pos`.
fn read_record(v: &Vec<char>, pos: usize) -> (r: Result<(FileDefinition, usize), EngineError>)
    requires
        pos < v@.len(),
    ensures
        match r {
            Ok(p) => pos < p.1 <= v@.len()
                && parse_records(v@.skip(pos as int)) == (match parse_records(v@.skip(p.1 as int)) {
                    Some(rest) => Some(seq![p.0@] + rest),
                    None => None::<Seq<FileRecordView>>,
                }),
            Err(e) => parse_records(v@.skip(pos as int)) is None
                && e matches EngineError::ParseError(_),
        },
{
    let ghost rem = v@.skip(pos as int);
    assert(rem.len() > 0);
    let (l1, q1) = match next_line(v, pos) {
        Option::Some(x) => x,
        Option::None => {
            return Err(parse_error("truncated file record"));
        },
    };
    let r_path = match read_sline(&l1, "- rPath: ") {
        Option::Some(x) => x,
        Option::None => {
            return Err(parse_error("bad file record path"));
        },
    };
    let (l2, q2) = match next_line(v, q1) {
        Option::Some(x) => x,
        Option::None => {
            return Err(parse_error("truncated file record"));
        },
    };
    let u_len = match read_nline(&l2, "  uLen: ") {
        Option::Some(x) => x,
        Option::None => {
            return Err(parse_error("bad file record length"));
        },
    };
    let (l3, q3) = match next_line(v, q2) {
        Option::Some(x) => x,
        Option::None => {
            return Err(parse_error("truncated file record"));
        },
    };
    let u_sha256 = match read_sline(&l3, "  uSha256: ") {
        Option::Some(x) => x,
        Option::None => {
            return Err(parse_error("bad file record digest"));
        },
    };
    let (l4, q4) = match next_line(v, q3) {
        Option::Some(x) => x,
        Option::None => {
            return Err(parse_error("truncated file record"));
        },
    };
    let c_algo = match read_sline(&l4, "  cAlgo: ") {
        Option::Some(x) => x,
        Option::None => {
            return Err(parse_error("bad file record algorithm"));
        },
    };
    let (l5, q5) = match next_line(v, q4) {
        Option::Some(x) => x,
        Option::None => {
            return Err(parse_error("truncated file record"));
        },
    };
    let c_len = match read_nline(&l5, "  cLen: ") {
        Option::Some(x) => x,
        Option::None => {
            return Err(parse_error("bad file record blob length"));
        },
    };
    let (l6, q6) = match next_line(v, q5) {
        Option::Some(x) => x,
        Option::None => {
            return Err(parse_error("truncated file record"));
        },
    };
    let c_sha256 = match read_sline(&l6, "  cSha256: ") {
        Option::Some(x) => x,
        Option::None => {
            return Err(parse_error("bad file record blob digest"));
        },
    };
    let fd = FileDefinition { r_path, u_len, u_sha256, c_algo, c_len, c_sha256 };
    Ok((fd, q6))
}

} // verus!
