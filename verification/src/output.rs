//! The build-script output parser: turns the text a script printed on its
//! standard output into a structured record of link directives, cfg flags and
//! metadata, aborting at the first malformed directive.
//!
//! The protocol is line oriented. A line that does not begin with `pkg:` is
//! ignored; one that does must continue `key=value`. `link-lib`,
//! `link-search` and `cfg` values are appended to the respective lists;
//! `link-flags` values are `-l NAME` / `-L PATH` token pairs; any other key
//! becomes a metadata pair. Trailing whitespace is trimmed from every value;
//! order of appearance is kept and nothing is deduplicated.

use vstd::prelude::*;

use crate::text::{lemma_split_lines_concat, split_first_eq, split_lines_spec, tokens_of,
    trim_end_spec};
use crate::text::{split_eq, split_lines, split_whitespace_tokens, str_eq, trim_end};
use crate::BuildScriptError;

verus! {

/// Contains the parsed output of a custom build script.
#[derive(Debug)]
pub struct BuildOutput {
    /// Search paths to hand to the linker via `-L`.
    pub library_paths: Vec<String>,
    /// Names of libraries to link via `-l`.
    pub library_links: Vec<String>,
    /// Configuration flags for the compiler.
    pub cfgs: Vec<String>,
    /// Metadata to pass to the immediate dependents, duplicates and order
    /// preserved.
    pub metadata: Vec<(String, String)>,
}

/// The mathematical shape of a parsed output record.
#[verifier::ext_equal]
pub struct RecordModel {
    pub library_paths: Seq<Seq<char>>,
    pub library_links: Seq<Seq<char>>,
    pub cfgs: Seq<Seq<char>>,
    pub metadata: Seq<(Seq<char>, Seq<char>)>,
}

impl RecordModel {
    pub open spec fn empty() -> RecordModel {
        RecordModel {
            library_paths: Seq::empty(),
            library_links: Seq::empty(),
            cfgs: Seq::empty(),
            metadata: Seq::empty(),
        }
    }
}

impl View for BuildOutput {
    type V = RecordModel;

    open spec fn view(&self) -> RecordModel {
        RecordModel {
            library_paths: self.library_paths.deep_view(),
            library_links: self.library_links.deep_view(),
            cfgs: self.cfgs.deep_view(),
            metadata: self.metadata.deep_view(),
        }
    }
}

/// What a `link-flags` directive value denotes: the `-L` paths and `-l`
/// names in order, or the first violation.
#[verifier::ext_equal]
pub enum FlagsModel {
    Parsed { paths: Seq<Seq<char>>, links: Seq<Seq<char>> },
    Disallowed,
    MissingValue,
}

/// Token pairs are read left to right: a flag other than `-l` or `-L` is
/// disallowed; a final flag without its argument is missing a value.
pub open spec fn flags_model(toks: Seq<Seq<char>>) -> FlagsModel
    decreases toks.len(),
{
    if toks.len() == 0 {
        FlagsModel::Parsed { paths: Seq::empty(), links: Seq::empty() }
    } else if toks[0] != "-l"@ && toks[0] != "-L"@ {
        FlagsModel::Disallowed
    } else if toks.len() == 1 {
        FlagsModel::MissingValue
    } else {
        match flags_model(toks.skip(2)) {
            FlagsModel::Parsed { paths, links } => {
                if toks[0] == "-l"@ {
                    FlagsModel::Parsed { paths, links: seq![toks[1]].add(links) }
                } else {
                    FlagsModel::Parsed { paths: seq![toks[1]].add(paths), links }
                }
            },
            e => e,
        }
    }
}

/// The fixed prefix that marks a line as a protocol directive.
pub open spec fn protocol_prefix() -> Seq<char> {
    seq!['p', 'k', 'g', ':']
}

pub open spec fn line_is_directive(line: Seq<char>) -> bool {
    line.len() >= 4 && line.subrange(0, 4) == protocol_prefix()
}

/// The outcome of parsing: a completed record, or the first fatal line. The
/// error payload is the offending line, or the offending flags value.
#[verifier::ext_equal]
pub enum ParseStep {
    Complete(RecordModel),
    Malformed(Seq<char>),
    Disallowed(Seq<char>),
    MissingValue(Seq<char>),
}

/// The effect of one line on a record built so far.
pub open spec fn apply_line(rec: RecordModel, line: Seq<char>) -> ParseStep {
    if !line_is_directive(line) {
        ParseStep::Complete(rec)
    } else {
        match split_first_eq(line.skip(4)) {
            None => ParseStep::Malformed(line),
            Some(kv) => {
                let key = kv.0;
                let val = trim_end_spec(kv.1);
                if key == "link-flags"@ {
                    match flags_model(tokens_of(val)) {
                        FlagsModel::Parsed { paths, links } => ParseStep::Complete(
                            RecordModel {
                                library_paths: rec.library_paths.add(paths),
                                library_links: rec.library_links.add(links),
                                ..rec
                            },
                        ),
                        FlagsModel::Disallowed => ParseStep::Disallowed(val),
                        FlagsModel::MissingValue => ParseStep::MissingValue(val),
                    }
                } else if key == "link-lib"@ {
                    ParseStep::Complete(
                        RecordModel { library_links: rec.library_links.push(val), ..rec },
                    )
                } else if key == "link-search"@ {
                    ParseStep::Complete(
                        RecordModel { library_paths: rec.library_paths.push(val), ..rec },
                    )
                } else if key == "cfg"@ {
                    ParseStep::Complete(RecordModel { cfgs: rec.cfgs.push(val), ..rec })
                } else {
                    ParseStep::Complete(
                        RecordModel { metadata: rec.metadata.push((key, val)), ..rec },
                    )
                }
            },
        }
    }
}

/// Folds `apply_line` over `lines`, starting from `rec`, stopping at the
/// first fatal line.
pub open spec fn parse_lines_from(rec: RecordModel, lines: Seq<Seq<char>>) -> ParseStep
    decreases lines.len(),
{
    if lines.len() == 0 {
        ParseStep::Complete(rec)
    } else {
        match parse_lines_from(rec, lines.drop_last()) {
            ParseStep::Complete(r) => apply_line(r, lines.last()),
            e => e,
        }
    }
}

/// What parsing a whole captured output text yields.
pub open spec fn parse_output_spec(text: Seq<char>) -> ParseStep {
    parse_lines_from(RecordModel::empty(), split_lines_spec(text))
}

/// The script label parse errors carry.
pub open spec fn whence_spec(pkg_name: Seq<char>) -> Seq<char> {
    "build script of `"@.add(pkg_name).add("`"@)
}

impl BuildOutput {
    /// Parses the captured output of a script. The `pkg_name` is used for
    /// error labels only.
    pub fn parse(input: &str, pkg_name: &str) -> (r: Result<BuildOutput, BuildScriptError>)
        ensures
            match r {
                Ok(out) => parse_output_spec(input@) == ParseStep::Complete(out@),
                Err(e) => match e {
                    BuildScriptError::MalformedLine { script, line } => parse_output_spec(input@)
                        == ParseStep::Malformed(line@) && script@ == whence_spec(pkg_name@),
                    BuildScriptError::DisallowedFlag { script, value } => parse_output_spec(input@)
                        == ParseStep::Disallowed(value@) && script@ == whence_spec(pkg_name@),
                    BuildScriptError::MissingFlagValue { script, value } => parse_output_spec(
                        input@,
                    ) == ParseStep::MissingValue(value@) && script@ == whence_spec(pkg_name@),
                    BuildScriptError::MissingDependencyOutput { .. } => false,
                },
            },
    {
        let mut whence = String::new();
        whence.append("build script of `");
        whence.append(pkg_name);
        whence.append("`");
        proof {
            assert(whence@ =~= whence_spec(pkg_name@));
        }

        let lines = split_lines(input);
        let ghost linesv = lines.deep_view();
        let mut library_paths: Vec<String> = Vec::new();
        let mut library_links: Vec<String> = Vec::new();
        let mut cfgs: Vec<String> = Vec::new();
        let mut metadata: Vec<(String, String)> = Vec::new();

        let mut j: usize = 0;
        while j < lines.len()
            invariant
                j <= lines.len(),
                linesv == lines.deep_view(),
                linesv == split_lines_spec(input@),
                lines.len() == linesv.len(),
                whence@ == whence_spec(pkg_name@),
                parse_lines_from(RecordModel::empty(), linesv.take(j as int))
                    == ParseStep::Complete(
                    RecordModel {
                        library_paths: library_paths.deep_view(),
                        library_links: library_links.deep_view(),
                        cfgs: cfgs.deep_view(),
                        metadata: metadata.deep_view(),
                    },
                ),
            decreases lines.len() - j,
        {
            let ghost rec = RecordModel {
                library_paths: library_paths.deep_view(),
                library_links: library_links.deep_view(),
                cfgs: cfgs.deep_view(),
                metadata: metadata.deep_view(),
            };
            proof {
                assert(linesv.take(j + 1).drop_last() =~= linesv.take(j as int));
                assert(linesv.take(j + 1).last() == linesv[j as int]);
                assert(lines[j as int]@ == linesv[j as int]);
            }
            let line = &lines[j];
            let n = line.as_str().unicode_len();
            let is_directive: bool = n >= 4 && line.as_str().get_char(0) == 'p'
                && line.as_str().get_char(1) == 'k' && line.as_str().get_char(2) == 'g'
                && line.as_str().get_char(3) == ':';
            proof {
                if is_directive {
                    assert(line@.subrange(0, 4) =~= protocol_prefix());
                } else if n >= 4 {
                    assert(line@.subrange(0, 4) != protocol_prefix());
                }
            }
            if is_directive {
                let data = line.as_str().substring_char(4, n);
                proof {
                    assert(data@ =~= line@.skip(4));
                }
                match split_eq(data) {
                    None => {
                        let e = BuildScriptError::MalformedLine {
                            script: whence,
                            line: line.clone(),
                        };
                        proof {
                            lemma_parse_error_persists(RecordModel::empty(), linesv, j + 1);
                            assert(linesv.take(linesv.len() as int) =~= linesv);
                        }
                        return Err(e);
                    },
                    Some((key, rawval)) => {
                        let val = trim_end(rawval);
                        if str_eq(key, "link-flags") {
                            match BuildOutput::parse_rustc_flags(val, whence.as_str()) {
                                Ok((mut paths, mut links)) => {
                                    let ghost oldp = library_paths.deep_view();
                                    let ghost oldl = library_links.deep_view();
                                    library_paths.append(&mut paths);
                                    library_links.append(&mut links);
                                    proof {
                                        assert(library_paths.deep_view() =~= oldp.add(
                                            flags_paths(tokens_of(val@)),
                                        ));
                                        assert(library_links.deep_view() =~= oldl.add(
                                            flags_links(tokens_of(val@)),
                                        ));
                                    }
                                },
                                Err(e) => {
                                    proof {
                                        lemma_parse_error_persists(
                                            RecordModel::empty(),
                                            linesv,
                                            j + 1,
                                        );
                                        assert(linesv.take(linesv.len() as int) =~= linesv);
                                    }
                                    return Err(e);
                                },
                            }
                        } else if str_eq(key, "link-lib") {
                            library_links.push(val.to_owned());
                            proof {
                                assert(library_links.deep_view() =~= rec.library_links.push(val@));
                            }
                        } else if str_eq(key, "link-search") {
                            library_paths.push(val.to_owned());
                            proof {
                                assert(library_paths.deep_view() =~= rec.library_paths.push(val@));
                            }
                        } else if str_eq(key, "cfg") {
                            cfgs.push(val.to_owned());
                            proof {
                                assert(cfgs.deep_view() =~= rec.cfgs.push(val@));
                            }
                        } else {
                            metadata.push((key.to_owned(), val.to_owned()));
                            proof {
                                assert(metadata.deep_view() =~= rec.metadata.push((key@, val@)));
                            }
                        }
                    },
                }
            }
            proof {
                assert(parse_lines_from(RecordModel::empty(), linesv.take(j + 1))
                    == ParseStep::Complete(
                    RecordModel {
                        library_paths: library_paths.deep_view(),
                        library_links: library_links.deep_view(),
                        cfgs: cfgs.deep_view(),
                        metadata: metadata.deep_view(),
                    },
                ));
            }
            j = j + 1;
        }
        proof {
            assert(linesv.take(linesv.len() as int) =~= linesv);
        }
        Ok(BuildOutput { library_paths, library_links, cfgs, metadata })
    }

    /// Parses one `link-flags` directive value: whitespace-separated `-l NAME`
    /// and `-L PATH` pairs. Returns the search paths and the library names, in
    /// order of appearance. The `whence` label is used for error reporting.
    pub fn parse_rustc_flags(value: &str, whence: &str) -> (r: Result<
        (Vec<String>, Vec<String>),
        BuildScriptError,
    >)
        ensures
            match r {
                Ok(pl) => flags_model(tokens_of(value@)) == FlagsModel::Parsed {
                    paths: pl.0.deep_view(),
                    links: pl.1.deep_view(),
                },
                Err(e) => match e {
                    BuildScriptError::DisallowedFlag { script, value: v } => flags_model(
                        tokens_of(value@),
                    ) is Disallowed && script@ == whence@ && v@ == value@,
                    BuildScriptError::MissingFlagValue { script, value: v } => flags_model(
                        tokens_of(value@),
                    ) is MissingValue && script@ == whence@ && v@ == value@,
                    _ => false,
                },
            },
    {
        let toks = split_whitespace_tokens(value);
        let ghost toksv = toks.deep_view();
        let mut paths: Vec<String> = Vec::new();
        let mut links: Vec<String> = Vec::new();
        let mut i: usize = 0;
        proof {
            assert(toksv.skip(0) =~= toksv);
            lemma_flags_combine_trivial(toksv);
        }
        while i < toks.len()
            invariant
                i <= toks.len(),
                toksv == toks.deep_view(),
                toksv == tokens_of(value@),
                toks.len() == toksv.len(),
                flags_model(toksv) == flags_combine(
                    paths.deep_view(),
                    links.deep_view(),
                    flags_model(toksv.skip(i as int)),
                ),
            decreases toks.len() - i,
        {
            let ghost suf = toksv.skip(i as int);
            proof {
                assert(suf[0] == toksv[i as int]);
                assert(toks[i as int]@ == toksv[i as int]);
            }
            let is_lib = str_eq(toks[i].as_str(), "-l");
            let is_path = str_eq(toks[i].as_str(), "-L");
            if !is_lib && !is_path {
                return Err(
                    BuildScriptError::DisallowedFlag {
                        script: whence.to_owned(),
                        value: value.to_owned(),
                    },
                );
            }
            if i + 1 == toks.len() {
                return Err(
                    BuildScriptError::MissingFlagValue {
                        script: whence.to_owned(),
                        value: value.to_owned(),
                    },
                );
            }
            proof {
                assert(suf[1] == toksv[i + 1]);
                assert(toks[i + 1]@ == toksv[i + 1]);
                assert(suf.skip(2) =~= toksv.skip(i + 2));
            }
            let ghost oldp = paths.deep_view();
            let ghost oldl = links.deep_view();
            if is_lib {
                links.push(toks[i + 1].clone());
                proof {
                    assert(links.deep_view() =~= oldl.push(toksv[i + 1]));
                    lemma_flags_combine_shift_link(
                        oldp,
                        oldl,
                        toksv[i + 1],
                        flags_model(toksv.skip(i + 2)),
                    );
                }
            } else {
                paths.push(toks[i + 1].clone());
                proof {
                    assert(paths.deep_view() =~= oldp.push(toksv[i + 1]));
                    lemma_flags_combine_shift_path(
                        oldp,
                        oldl,
                        toksv[i + 1],
                        flags_model(toksv.skip(i + 2)),
                    );
                }
            }
            i = i + 2;
        }
        proof {
            assert(toksv.skip(toksv.len() as int) =~= Seq::<Seq<char>>::empty());
            assert(paths.deep_view().add(Seq::<Seq<char>>::empty()) =~= paths.deep_view());
            assert(links.deep_view().add(Seq::<Seq<char>>::empty()) =~= links.deep_view());
        }
        Ok((paths, links))
    }
}

/// The `-L` paths a well-formed flags directive denotes.
pub open spec fn flags_paths(toks: Seq<Seq<char>>) -> Seq<Seq<char>> {
    match flags_model(toks) {
        FlagsModel::Parsed { paths, links } => paths,
        _ => Seq::empty(),
    }
}

/// The `-l` names a well-formed flags directive denotes.
pub open spec fn flags_links(toks: Seq<Seq<char>>) -> Seq<Seq<char>> {
    match flags_model(toks) {
        FlagsModel::Parsed { paths, links } => links,
        _ => Seq::empty(),
    }
}

/// Prepends already-accumulated paths and links to a flags outcome.
pub open spec fn flags_combine(
    paths: Seq<Seq<char>>,
    links: Seq<Seq<char>>,
    m: FlagsModel,
) -> FlagsModel {
    match m {
        FlagsModel::Parsed { paths: p, links: l } => FlagsModel::Parsed {
            paths: paths.add(p),
            links: links.add(l),
        },
        e => e,
    }
}

proof fn lemma_flags_combine_trivial(toks: Seq<Seq<char>>)
    ensures
        flags_model(toks) == flags_combine(
            Seq::<Seq<char>>::empty(),
            Seq::<Seq<char>>::empty(),
            flags_model(toks),
        ),
{
    match flags_model(toks) {
        FlagsModel::Parsed { paths, links } => {
            assert(Seq::<Seq<char>>::empty().add(paths) =~= paths);
            assert(Seq::<Seq<char>>::empty().add(links) =~= links);
        },
        _ => {},
    }
}

proof fn lemma_flags_combine_shift_link(
    paths: Seq<Seq<char>>,
    links: Seq<Seq<char>>,
    name: Seq<char>,
    m: FlagsModel,
)
    ensures
        flags_combine(
            paths,
            links,
            match m {
                FlagsModel::Parsed { paths: p, links: l } => FlagsModel::Parsed {
                    paths: p,
                    links: seq![name].add(l),
                },
                e => e,
            },
        ) == flags_combine(paths, links.push(name), m),
{
    match m {
        FlagsModel::Parsed { paths: p, links: l } => {
            assert(links.add(seq![name].add(l)) =~= links.push(name).add(l));
        },
        _ => {},
    }
}

proof fn lemma_flags_combine_shift_path(
    paths: Seq<Seq<char>>,
    links: Seq<Seq<char>>,
    path: Seq<char>,
    m: FlagsModel,
)
    ensures
        flags_combine(
            paths,
            links,
            match m {
                FlagsModel::Parsed { paths: p, links: l } => FlagsModel::Parsed {
                    paths: seq![path].add(p),
                    links: l,
                },
                e => e,
            },
        ) == flags_combine(paths.push(path), links, m),
{
    match m {
        FlagsModel::Parsed { paths: p, links: l } => {
            assert(paths.add(seq![path].add(p)) =~= paths.push(path).add(p));
        },
        _ => {},
    }
}

/// Once the fold has hit a fatal line, the remaining lines change nothing.
pub proof fn lemma_parse_error_persists(rec: RecordModel, lines: Seq<Seq<char>>, k: int)
    requires
        0 <= k <= lines.len(),
        !(parse_lines_from(rec, lines.take(k)) is Complete),
    ensures
        parse_lines_from(rec, lines.take(lines.len() as int)) == parse_lines_from(
            rec,
            lines.take(k),
        ),
    decreases lines.len() - k,
{
    if k < lines.len() {
        assert(lines.take(k + 1).drop_last() =~= lines.take(k));
        lemma_parse_error_persists(rec, lines, k + 1);
    }
}

impl Clone for BuildOutput {
    /// An independently stored copy whose model is the same.
    fn clone(&self) -> (r: Self)
        ensures
            r@ == self@,
    {
        let r = BuildOutput {
            library_paths: clone_string_vec(&self.library_paths),
            library_links: clone_string_vec(&self.library_links),
            cfgs: clone_string_vec(&self.cfgs),
            metadata: clone_pair_vec(&self.metadata),
        };
        proof {
            assert(r@ =~= self@);
        }
        r
    }
}

fn clone_string_vec(v: &Vec<String>) -> (r: Vec<String>)
    ensures
        r.deep_view() == v.deep_view(),
{
    let mut r: Vec<String> = Vec::new();
    let mut i: usize = 0;
    while i < v.len()
        invariant
            i <= v.len(),
            r.deep_view() == v.deep_view().take(i as int),
        decreases v.len() - i,
    {
        let ghost oldr = r.deep_view();
        let x = v[i].clone();
        proof {
            assert(x == v@[i as int]);
        }
        r.push(x);
        proof {
            assert(r.deep_view().len() == oldr.len() + 1);
            assert(forall|k: int| 0 <= k < oldr.len() ==> r.deep_view()[k] == oldr[k]);
            assert(r.deep_view()[oldr.len() as int] == v@[i as int].deep_view());
            assert(forall|k: int|
                0 <= k < i + 1 ==> r.deep_view()[k] == #[trigger] v.deep_view().take(i + 1)[k]);
            assert(r.deep_view() =~~= v.deep_view().take(i + 1));
        }
        i = i + 1;
    }
    proof {
        assert(v.deep_view().take(v.len() as int) =~= v.deep_view());
    }
    r
}

fn clone_pair_vec(v: &Vec<(String, String)>) -> (r: Vec<(String, String)>)
    ensures
        r.deep_view() == v.deep_view(),
{
    let mut r: Vec<(String, String)> = Vec::new();
    let mut i: usize = 0;
    while i < v.len()
        invariant
            i <= v.len(),
            r.deep_view() == v.deep_view().take(i as int),
        decreases v.len() - i,
    {
        let ghost oldr = r.deep_view();
        let x = (v[i].0.clone(), v[i].1.clone());
        proof {
            assert(x.0 == v@[i as int].0);
            assert(x.1 == v@[i as int].1);
            assert(x.deep_view() == v@[i as int].deep_view());
        }
        r.push(x);
        proof {
            assert(r.deep_view().len() == oldr.len() + 1);
            assert(forall|k: int| 0 <= k < oldr.len() ==> r.deep_view()[k] == oldr[k]);
            assert(r.deep_view()[oldr.len() as int] == v@[i as int].deep_view());
            assert(forall|k: int|
                0 <= k < i + 1 ==> r.deep_view()[k] == #[trigger] v.deep_view().take(i + 1)[k]);
            assert(r.deep_view() =~~= v.deep_view().take(i + 1));
        }
        i = i + 1;
    }
    proof {
        assert(v.deep_view().take(v.len() as int) =~= v.deep_view());
    }
    r
}

/// A directive line whose key is none of the recognized ones contributes its
/// `(key, value)` pair — and nothing else — to the metadata list, with only
/// trailing whitespace trimmed from the value.
pub proof fn lemma_unknown_key_becomes_metadata(
    rec: RecordModel,
    line: Seq<char>,
    key: Seq<char>,
    val: Seq<char>,
)
    requires
        line == protocol_prefix().add(key).add(seq!['=']).add(val),
        forall|i: int| 0 <= i < key.len() ==> key[i] != '=',
        key != "link-flags"@,
        key != "link-lib"@,
        key != "link-search"@,
        key != "cfg"@,
    ensures
        apply_line(rec, line) == ParseStep::Complete(
            RecordModel { metadata: rec.metadata.push((key, trim_end_spec(val))), ..rec },
        ),
{
    assert(line.subrange(0, 4) =~= protocol_prefix());
    assert(line.skip(4) =~= key.add(seq!['=']).add(val));
    lemma_split_eq_around(key, val);
}

/// Splitting `key=value` at the first `=` recovers `key` and `value` when the
/// key itself holds no `=`.
pub proof fn lemma_split_eq_around(key: Seq<char>, val: Seq<char>)
    requires
        forall|i: int| 0 <= i < key.len() ==> key[i] != '=',
    ensures
        split_first_eq(key.add(seq!['=']).add(val)) == Some((key, val)),
    decreases key.len(),
{
    let s = key.add(seq!['=']).add(val);
    if key.len() == 0 {
        assert(s[0] == '=');
        assert(s.drop_first() =~= val);
        assert(split_first_eq(s) == Some((Seq::<char>::empty(), val)));
        assert(Seq::<char>::empty() =~= key);
    } else {
        assert(s[0] == key[0]);
        assert(s[0] != '=');
        assert(s.drop_first() =~= key.drop_first().add(seq!['=']).add(val));
        lemma_split_eq_around(key.drop_first(), val);
        assert(seq![key[0]].add(key.drop_first()) =~= key);
    }
}

/// Parsing preserves line order over whole texts: what a newline-terminated
/// text `a` followed by a text `b` parses to is `a`'s record continued by
/// `b`'s lines, in order. Nothing is reordered or deduplicated across the
/// boundary, and a fatal line in `a` is final.
pub proof fn lemma_parse_text_concat(a: Seq<char>, b: Seq<char>)
    requires
        a.len() > 0,
        a.last() == '\n',
    ensures
        parse_output_spec(a.add(b)) == match parse_output_spec(a) {
            ParseStep::Complete(r) => parse_lines_from(r, split_lines_spec(b)),
            e => e,
        },
{
    lemma_split_lines_concat(a, b);
    let front = split_lines_spec(a).drop_last();
    lemma_parse_lines_concat(RecordModel::empty(), front, split_lines_spec(b));
    assert(split_lines_spec(a) =~= front.push(Seq::<char>::empty()));
    assert(split_lines_spec(a).drop_last() =~= front);
    assert(!line_is_directive(Seq::<char>::empty()));
}

/// Parsing is compositional over line order: the lines of `a` act first, in
/// order, then those of `b`; nothing is reordered or deduplicated, and the
/// first fatal line wins.
pub proof fn lemma_parse_lines_concat(rec: RecordModel, a: Seq<Seq<char>>, b: Seq<Seq<char>>)
    ensures
        parse_lines_from(rec, a.add(b)) == match parse_lines_from(rec, a) {
            ParseStep::Complete(r) => parse_lines_from(r, b),
            e => e,
        },
    decreases b.len(),
{
    if b.len() == 0 {
        assert(a.add(b) =~= a);
    } else {
        assert(a.add(b).drop_last() =~= a.add(b.drop_last()));
        assert(a.add(b).last() == b.last());
        lemma_parse_lines_concat(rec, a, b.drop_last());
    }
}

} // verus!
