//! The data the expansion engine works over: per-file bindings, the named
//! asset registry, the read-only snapshot of file contents, output records,
//! and the error taxonomy.

use vstd::prelude::*;

verus! {

/// One output file's record: its backing source path and the optional
/// companion style and script source paths.
pub struct StaticSiteFile {
    pub file: String,
    pub script: Option<String>,
    pub style: Option<String>,
}

/// A named asset: a registry entry binding a name to a backing file.
pub struct StaticSiteAsset {
    pub name: String,
    pub file: StaticSiteFile,
}

/// The whole site description: the asset registry and the output files.
pub struct StaticSiteInfo {
    pub assets: Vec<StaticSiteAsset>,
    pub files: Vec<StaticSiteFile>,
}

/// One fully expanded output: the file's name and its expanded contents.
#[derive(Debug)]
pub struct OutputFile {
    pub name: String,
    pub contents: String,
}

/// Why an expansion failed.  Every failure is fatal: the caller aborts.
#[derive(Debug)]
pub enum PpxError {
    /// A backing, style, script, or asset file has no readable contents.
    UnreadableFile(String),
    /// A style or script copy was asked of a file without that binding;
    /// carries the output file's path.
    MissingBinding(String),
    /// An import names an asset the registry does not hold.
    UnknownAsset(String),
    /// An import carries no asset name.
    MissingArgument,
    /// The directive's command token is not recognised.
    UnknownCommand(String),
    /// Rewriting passes exceeded the engine's bound without stabilising.
    PassLimitExceeded,
}

/// The mathematical image of a `PpxError`.
pub enum ErrView {
    UnreadableFile(Seq<char>),
    MissingBinding(Seq<char>),
    UnknownAsset(Seq<char>),
    MissingArgument,
    UnknownCommand(Seq<char>),
    PassLimitExceeded,
}

impl View for PpxError {
    type V = ErrView;

    open spec fn view(&self) -> ErrView {
        match self {
            PpxError::UnreadableFile(p) => ErrView::UnreadableFile(p@),
            PpxError::MissingBinding(p) => ErrView::MissingBinding(p@),
            PpxError::UnknownAsset(n) => ErrView::UnknownAsset(n@),
            PpxError::MissingArgument => ErrView::MissingArgument,
            PpxError::UnknownCommand(c) => ErrView::UnknownCommand(c@),
            PpxError::PassLimitExceeded => ErrView::PassLimitExceeded,
        }
    }
}

/// The mathematical image of an expansion outcome.
pub open spec fn result_view(r: Result<String, PpxError>) -> Result<Seq<char>, ErrView> {
    match r {
        Ok(s) => Ok(s@),
        Err(e) => Err(e@),
    }
}

/// Contents bound to `path` in a snapshot, scanning forward; the first
/// matching entry wins.
pub open spec fn store_contents(entries: Seq<(String, String)>, path: Seq<char>) -> Option<
    Seq<char>,
>
    decreases entries.len(),
{
    if entries.len() == 0 {
        None
    } else if entries[0].0@ == path {
        Some(entries[0].1@)
    } else {
        store_contents(entries.drop_first(), path)
    }
}

/// A read-only snapshot of file contents, keyed by path.  It stands in for
/// the file system during expansion: a path with no entry reads as an
/// unreadable file.
pub struct FileStore {
    pub entries: Vec<(String, String)>,
}

impl FileStore {
    /// What a read of `path` returns.
    pub open spec fn contents_of(&self, path: Seq<char>) -> Option<Seq<char>> {
        store_contents(self.entries@, path)
    }

    /// An empty snapshot: every read fails.
    pub fn new() -> (r: FileStore)
        ensures
            r.entries@ == Seq::<(String, String)>::empty(),
    {
        FileStore { entries: Vec::new() }
    }

    /// Record `contents` as what a read of `path` returns; an earlier entry
    /// for the same path keeps precedence.
    pub fn add(&mut self, path: String, contents: String)
        ensures
            final(self).entries@ == old(self).entries@.push((path, contents)),
    {
        self.entries.push((path, contents));
    }

    /// Read the whole contents bound to `path`, if the snapshot holds it.
    pub fn read_file(&self, path: &str) -> (r: Option<String>)
        ensures
            match r {
                Some(c) => self.contents_of(path@) == Some(c@),
                None => self.contents_of(path@) is None,
            },
    {
        let mut i: usize = 0;
        proof {
            assert(self.entries@.skip(0) =~= self.entries@);
        }
        while i < self.entries.len()
            invariant
                0 <= i <= self.entries@.len(),
                store_contents(self.entries@, path@) == store_contents(
                    self.entries@.skip(i as int),
                    path@,
                ),
            decreases self.entries@.len() - i,
        {
            let entry = &self.entries[i];
            proof {
                assert(self.entries@.skip(i as int)[0] == self.entries@[i as int]);
                assert(self.entries@.skip(i as int).drop_first() =~= self.entries@.skip(i + 1));
            }
            if crate::text::str_eq(entry.0.as_str(), path) {
                return Some(entry.1.clone());
            }
            i += 1;
        }
        proof {
            assert(self.entries@.skip(i as int) =~= Seq::<(String, String)>::empty());
        }
        None
    }
}

/// The backing path bound to `name` in the registry; on duplicate names the
/// entry registered last wins.
pub open spec fn asset_path(assets: Seq<StaticSiteAsset>, name: Seq<char>) -> Option<Seq<char>>
    decreases assets.len(),
{
    if assets.len() == 0 {
        None
    } else if assets.last().name@ == name {
        Some(assets.last().file.file@)
    } else {
        asset_path(assets.drop_last(), name)
    }
}

} // verus!
