//! The fixed-point expansion engine.
//!
//! One pass splits the content into lines, replaces every line holding a
//! directive by its resolution, and rejoins with newlines.  Passes repeat
//! until one matches no directive; the engine then reports the content as
//! stable.  A directive whose expansion reintroduces a directive converges
//! over later passes; a cycle that never stabilises is cut off by a pass
//! bound and reported as an error rather than looping forever.

use vstd::prelude::*;

use crate::model::{
    result_view, store_contents, ErrView, FileStore, OutputFile, PpxError, StaticSiteAsset,
    StaticSiteFile, StaticSiteInfo,
};
use crate::parser::{
    args_spec, command_spec, line_has_directive, prefix_spec, suffix_spec, PPXDirective,
};
use crate::resolver::resolve_directive;
use crate::text::{join_lines, join_lines_vec, split_lines, split_lines_str};

verus! {

/// How many rewriting passes the engine attempts before giving up.
pub const MAX_PASSES: u64 = 32;

/// What a line holding a directive is replaced by: its trimmed prefix, the
/// directive's resolution, and its trimmed suffix, with no separator.
pub open spec fn resolve_line(
    line: Seq<char>,
    file: StaticSiteFile,
    assets: Seq<StaticSiteAsset>,
    store: Seq<(String, String)>,
) -> Result<Seq<char>, ErrView>
    recommends
        line_has_directive(line),
{
    match resolve_directive(command_spec(line), args_spec(line), file, assets, store) {
        Ok(body) => Ok(prefix_spec(line) + body + suffix_spec(line)),
        Err(e) => Err(e),
    }
}

/// One pass over the lines, in order: each line holding a directive is
/// replaced, the others are kept; the flag says whether any line matched.
/// The first failing line aborts the pass.
pub open spec fn pass_lines(
    lines: Seq<Seq<char>>,
    file: StaticSiteFile,
    assets: Seq<StaticSiteAsset>,
    store: Seq<(String, String)>,
) -> Result<(Seq<Seq<char>>, bool), ErrView>
    decreases lines.len(),
{
    if lines.len() == 0 {
        Ok((Seq::empty(), false))
    } else if line_has_directive(lines[0]) {
        match resolve_line(lines[0], file, assets, store) {
            Ok(repl) => match pass_lines(lines.drop_first(), file, assets, store) {
                Ok(rest) => Ok((seq![repl] + rest.0, true)),
                Err(e) => Err(e),
            },
            Err(e) => Err(e),
        }
    } else {
        match pass_lines(lines.drop_first(), file, assets, store) {
            Ok(rest) => Ok((seq![lines[0]] + rest.0, rest.1)),
            Err(e) => Err(e),
        }
    }
}

/// Repeated passes from `content`, at most `fuel` rewrites after the first
/// pass; the result of the pass that matched nothing is the stable output.
pub open spec fn expand_from(
    content: Seq<char>,
    file: StaticSiteFile,
    assets: Seq<StaticSiteAsset>,
    store: Seq<(String, String)>,
    fuel: nat,
) -> Result<Seq<char>, ErrView>
    decreases fuel,
{
    match pass_lines(split_lines(content), file, assets, store) {
        Err(e) => Err(e),
        Ok(pr) => {
            let joined = join_lines(pr.0);
            if !pr.1 {
                Ok(joined)
            } else if fuel == 0 {
                Err(ErrView::PassLimitExceeded)
            } else {
                expand_from(joined, file, assets, store, (fuel - 1) as nat)
            }
        },
    }
}

/// The full preprocessing of one output file: read its backing source from
/// the snapshot, then expand to the fixed point.
pub open spec fn preprocess_spec(
    file: StaticSiteFile,
    assets: Seq<StaticSiteAsset>,
    store: Seq<(String, String)>,
) -> Result<Seq<char>, ErrView> {
    match store_contents(store, file.file@) {
        None => Err(ErrView::UnreadableFile(file.file@)),
        Some(c) => expand_from(c, file, assets, store, MAX_PASSES as nat),
    }
}

/// The preprocessing of a list of output files, in order, each paired with
/// its path; the first failing file aborts the whole batch.
pub open spec fn preprocess_files(
    files: Seq<StaticSiteFile>,
    assets: Seq<StaticSiteAsset>,
    store: Seq<(String, String)>,
) -> Result<Seq<(Seq<char>, Seq<char>)>, ErrView>
    decreases files.len(),
{
    if files.len() == 0 {
        Ok(Seq::empty())
    } else {
        match preprocess_spec(files[0], assets, store) {
            Err(e) => Err(e),
            Ok(c) => match preprocess_files(files.drop_first(), assets, store) {
                Err(e) => Err(e),
                Ok(rest) => Ok(seq![(files[0].file@, c)] + rest),
            },
        }
    }
}

/// The mathematical image of a list of output records.
pub open spec fn outputs_view(v: Seq<OutputFile>) -> Seq<(Seq<char>, Seq<char>)> {
    v.map_values(|o: OutputFile| (o.name@, o.contents@))
}

/// One pass over `content`'s lines; `Ok` carries the rewritten lines and
/// whether any line matched a directive.
fn run_pass(
    content: &str,
    file: &StaticSiteFile,
    assets: &Vec<StaticSiteAsset>,
    store: &FileStore,
) -> (r: Result<(Vec<String>, bool), PpxError>)
    ensures
        match r {
            Ok(p) => pass_lines(split_lines(content@), *file, assets@, store.entries@) == Ok::<
                (Seq<Seq<char>>, bool),
                ErrView,
            >((p.0.deep_view(), p.1)),
            Err(e) => pass_lines(split_lines(content@), *file, assets@, store.entries@) == Err::<
                (Seq<Seq<char>>, bool),
                ErrView,
            >(e@),
        },
{
    let lines = split_lines_str(content);
    let ghost ldv = lines.deep_view();
    let mut out: Vec<String> = Vec::new();
    let mut changed = false;
    let mut i: usize = 0;
    proof {
        assert(ldv.skip(0) =~= ldv);
        assert(out.deep_view() =~= Seq::<Seq<char>>::empty());
    }
    while i < lines.len()
        invariant
            0 <= i <= ldv.len(),
            ldv == lines.deep_view(),
            ldv == split_lines(content@),
            lines@.len() == ldv.len(),
            pass_lines(ldv, *file, assets@, store.entries@) == match pass_lines(
                ldv.skip(i as int),
                *file,
                assets@,
                store.entries@,
            ) {
                Ok(rest) => Ok::<(Seq<Seq<char>>, bool), ErrView>(
                    (out.deep_view() + rest.0, changed || rest.1),
                ),
                Err(e) => Err::<(Seq<Seq<char>>, bool), ErrView>(e),
            },
        decreases ldv.len() - i,
    {
        let line: &String = &lines[i];
        let ghost l = ldv[i as int];
        proof {
            assert(l == line@);
            assert(ldv.skip(i as int)[0] == l);
            assert(ldv.skip(i as int).drop_first() =~= ldv.skip(i + 1));
        }
        let ghost old_out = out.deep_view();
        match PPXDirective::parse(line.as_str()) {
            Some(d) => {
                match d.run(file, assets, store) {
                    Ok(repl) => {
                        proof {
                            assert(resolve_line(l, *file, assets@, store.entries@) == Ok::<
                                Seq<char>,
                                ErrView,
                            >(repl@));
                        }
                        out.push(repl);
                        proof {
                            assert(out.deep_view() =~= old_out.push(
                                resolve_line(l, *file, assets@, store.entries@)->Ok_0,
                            ));
                            assert forall|rest0: Seq<Seq<char>>|
                                true implies old_out + (seq![
                                resolve_line(l, *file, assets@, store.entries@)->Ok_0,
                            ] + rest0) =~= out.deep_view() + rest0 by {}
                        }
                        changed = true;
                    },
                    Err(e) => {
                        proof {
                            assert(resolve_line(l, *file, assets@, store.entries@) == Err::<
                                Seq<char>,
                                ErrView,
                            >(e@));
                        }
                        return Err(e);
                    },
                }
            },
            None => {
                out.push(line.clone());
                proof {
                    assert(out.deep_view() =~= old_out.push(l));
                    assert forall|rest0: Seq<Seq<char>>| true implies old_out + (seq![l] + rest0)
                        =~= out.deep_view() + rest0 by {}
                }
            },
        }
        i += 1;
    }
    proof {
        assert(ldv.skip(i as int) =~= Seq::<Seq<char>>::empty());
        assert(out.deep_view() + Seq::<Seq<char>>::empty() =~= out.deep_view());
    }
    Ok((out, changed))
}

impl StaticSiteFile {
    /// Expand this file's backing source to its stable form: read it from the
    /// snapshot and rewrite directives pass by pass until none matches.
    pub fn preprocess(&self, assets: &Vec<StaticSiteAsset>, store: &FileStore) -> (r: Result<
        String,
        PpxError,
    >)
        ensures
            result_view(r) == preprocess_spec(*self, assets@, store.entries@),
    {
        let mut contents: String = match store.read_file(self.file.as_str()) {
            Some(c) => c,
            None => {
                return Err(PpxError::UnreadableFile(self.file.clone()));
            },
        };
        let mut passes: u64 = 0;
        loop
            invariant
                0 <= passes <= MAX_PASSES,
                expand_from(
                    contents@,
                    *self,
                    assets@,
                    store.entries@,
                    (MAX_PASSES - passes) as nat,
                ) == preprocess_spec(*self, assets@, store.entries@),
            decreases MAX_PASSES - passes,
        {
            match run_pass(contents.as_str(), self, assets, store) {
                Err(e) => {
                    return Err(e);
                },
                Ok((new_lines, changed)) => {
                    let joined = join_lines_vec(&new_lines);
                    if !changed {
                        return Ok(joined);
                    }
                    if passes == MAX_PASSES {
                        return Err(PpxError::PassLimitExceeded);
                    }
                    passes += 1;
                    contents = joined;
                },
            }
        }
    }
}

impl StaticSiteInfo {
    /// Preprocess every output file, in order, against this site's asset
    /// registry; the first failure aborts the batch.
    pub fn preprocess_all(&self, store: &FileStore) -> (r: Result<Vec<OutputFile>, PpxError>)
        ensures
            match r {
                Ok(v) => preprocess_files(self.files@, self.assets@, store.entries@) == Ok::<
                    Seq<(Seq<char>, Seq<char>)>,
                    ErrView,
                >(outputs_view(v@)),
                Err(e) => preprocess_files(self.files@, self.assets@, store.entries@) == Err::<
                    Seq<(Seq<char>, Seq<char>)>,
                    ErrView,
                >(e@),
            },
    {
        let mut oup: Vec<OutputFile> = Vec::new();
        let mut i: usize = 0;
        proof {
            assert(self.files@.skip(0) =~= self.files@);
            assert(outputs_view(oup@) =~= Seq::<(Seq<char>, Seq<char>)>::empty());
        }
        while i < self.files.len()
            invariant
                0 <= i <= self.files@.len(),
                preprocess_files(self.files@, self.assets@, store.entries@) == match
                    preprocess_files(self.files@.skip(i as int), self.assets@, store.entries@) {
                    Ok(rest) => Ok::<Seq<(Seq<char>, Seq<char>)>, ErrView>(
                        outputs_view(oup@) + rest,
                    ),
                    Err(e) => Err::<Seq<(Seq<char>, Seq<char>)>, ErrView>(e),
                },
            decreases self.files@.len() - i,
        {
            let f: &StaticSiteFile = &self.files[i];
            proof {
                assert(self.files@.skip(i as int)[0] == self.files@[i as int]);
                assert(self.files@.skip(i as int).drop_first() =~= self.files@.skip(i + 1));
            }
            let ghost old_view = outputs_view(oup@);
            match f.preprocess(&self.assets, store) {
                Ok(pps) => {
                    let ghost c = pps@;
                    oup.push(OutputFile { name: f.file.clone(), contents: pps });
                    proof {
                        assert(outputs_view(oup@) =~= old_view.push((f.file@, c)));
                        assert forall|rest0: Seq<(Seq<char>, Seq<char>)>|
                            true implies old_view + (seq![(f.file@, c)] + rest0) =~= outputs_view(
                            oup@,
                        ) + rest0 by {}
                    }
                },
                Err(e) => {
                    return Err(e);
                },
            }
            i += 1;
        }
        proof {
            assert(self.files@.skip(i as int) =~= Seq::<StaticSiteFile>::empty());
            assert(outputs_view(oup@) + Seq::<(Seq<char>, Seq<char>)>::empty() =~= outputs_view(
                oup@,
            ));
        }
        Ok(oup)
    }
}

} // verus!
