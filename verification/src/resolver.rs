//! Resolution of one parsed directive against a file binding, the asset
//! registry, and the contents snapshot.
//!
//! Three commands are recognised.  `STATICSTYLECOPY` and `STATICSCRIPTCOPY`
//! copy the binding's style or script file, wrapped in `<style>`/`<script>`
//! tags and traceability comments echoing the source path.  `STATICIMPORT`
//! copies a named asset's backing file, wrapped in comments echoing the name
//! and path.  Anything else is a fatal unknown command.

use vstd::prelude::*;
use vstd::string::StringExecFns;

use crate::model::{
    asset_path, store_contents, ErrView, FileStore, PpxError, StaticSiteAsset, StaticSiteFile,
};
use crate::parser::PPXDirective;
use crate::text::str_eq;

verus! {

/// The replacement for a style copy: the contents wrapped in `<style>` tags
/// and comments echoing the style file's path.
pub open spec fn style_block(path: Seq<char>, contents: Seq<char>) -> Seq<char> {
    "<!-- "@ + path + " -->\n<style>\n"@ + contents + "\n</style>\n<!-- END "@ + path + " -->\n"@
}

/// The replacement for a script copy: the contents wrapped in `<script>` tags
/// and comments echoing the script file's path.
pub open spec fn script_block(path: Seq<char>, contents: Seq<char>) -> Seq<char> {
    "<!-- "@ + path + " -->\n<script>\n"@ + contents + "\n</script>\n<!-- END "@ + path
        + " -->\n"@
}

/// The replacement for an asset import: the contents wrapped in comments
/// echoing the asset's name and backing path.
pub open spec fn import_block(name: Seq<char>, path: Seq<char>, contents: Seq<char>) -> Seq<char> {
    "<!-- "@ + name + " - "@ + path + " -->\n"@ + contents + "\n<!-- END "@ + name + " - "@ + path
        + " -->\n"@
}

/// What a directive's command and arguments resolve to: the replacement text,
/// or the exact error.  `Ok` is returned if and only if the command is one of
/// the three recognised ones, its required binding or asset exists, and the
/// referenced file has contents in the snapshot.
pub open spec fn resolve_directive(
    command: Seq<char>,
    args: Seq<Seq<char>>,
    file: StaticSiteFile,
    assets: Seq<StaticSiteAsset>,
    store: Seq<(String, String)>,
) -> Result<Seq<char>, ErrView> {
    if command == "STATICSTYLECOPY"@ {
        match file.style {
            Some(style) => match store_contents(store, style@) {
                Some(c) => Ok(style_block(style@, c)),
                None => Err(ErrView::UnreadableFile(style@)),
            },
            None => Err(ErrView::MissingBinding(file.file@)),
        }
    } else if command == "STATICSCRIPTCOPY"@ {
        match file.script {
            Some(script) => match store_contents(store, script@) {
                Some(c) => Ok(script_block(script@, c)),
                None => Err(ErrView::UnreadableFile(script@)),
            },
            None => Err(ErrView::MissingBinding(file.file@)),
        }
    } else if command == "STATICIMPORT"@ {
        if args.len() == 0 {
            Err(ErrView::MissingArgument)
        } else {
            match asset_path(assets, args[0]) {
                Some(p) => match store_contents(store, p) {
                    Some(c) => Ok(import_block(args[0], p, c)),
                    None => Err(ErrView::UnreadableFile(p)),
                },
                None => Err(ErrView::UnknownAsset(args[0])),
            }
        }
    } else {
        Err(ErrView::UnknownCommand(command))
    }
}

impl PPXDirective {
    /// The backing path registered for `name`; with duplicate names the
    /// last registration wins.  `Ok` exactly when the name is registered.
    pub fn get_asset(name: String, assets: &Vec<StaticSiteAsset>) -> (r: Result<String, PpxError>)
        ensures
            match r {
                Ok(p) => asset_path(assets@, name@) == Some(p@),
                Err(e) => asset_path(assets@, name@) is None && e@ == ErrView::UnknownAsset(name@),
            },
    {
        let mut outf: Option<String> = None;
        let mut i: usize = 0;
        proof {
            assert(assets@.subrange(0, 0) =~= Seq::<StaticSiteAsset>::empty());
        }
        while i < assets.len()
            invariant
                0 <= i <= assets@.len(),
                match outf {
                    Some(f) => asset_path(assets@.subrange(0, i as int), name@) == Some(f@),
                    None => asset_path(assets@.subrange(0, i as int), name@) is None,
                },
            decreases assets@.len() - i,
        {
            let asset = &assets[i];
            proof {
                assert(assets@.subrange(0, i + 1).last() == assets@[i as int]);
                assert(assets@.subrange(0, i + 1).drop_last() =~= assets@.subrange(0, i as int));
            }
            if str_eq(asset.name.as_str(), name.as_str()) {
                outf = Some(asset.file.file.clone());
            }
            i += 1;
        }
        proof {
            assert(assets@.subrange(0, i as int) =~= assets@);
        }
        match outf {
            Some(f) => Ok(f),
            None => Err(PpxError::UnknownAsset(name)),
        }
    }

    /// Resolve this directive and return the whole line's replacement: the
    /// trimmed prefix, the resolved block, and the trimmed suffix, joined
    /// with no separator.
    pub fn run(
        self,
        file: &StaticSiteFile,
        assets: &Vec<StaticSiteAsset>,
        store: &FileStore,
    ) -> (r: Result<String, PpxError>)
        ensures
            crate::model::result_view(r) == match resolve_directive(
                self.command@,
                self.args.deep_view(),
                *file,
                assets@,
                store.entries@,
            ) {
                Ok(body) => Ok::<Seq<char>, ErrView>(self.prefix@ + body + self.suffix@),
                Err(e) => Err::<Seq<char>, ErrView>(e),
            },
    {
        let ppstr: String = if str_eq(self.command.as_str(), "STATICSTYLECOPY") {
            match &file.style {
                Some(style) => match store.read_file(style.as_str()) {
                    Some(s) => {
                        let mut b = String::new();
                        b.append("<!-- ");
                        b.append(style.as_str());
                        b.append(" -->\n<style>\n");
                        b.append(s.as_str());
                        b.append("\n</style>\n<!-- END ");
                        b.append(style.as_str());
                        b.append(" -->\n");
                        proof {
                            assert(b@ =~= style_block(style@, s@));
                        }
                        b
                    },
                    None => {
                        return Err(PpxError::UnreadableFile(style.clone()));
                    },
                },
                None => {
                    return Err(PpxError::MissingBinding(file.file.clone()));
                },
            }
        } else if str_eq(self.command.as_str(), "STATICSCRIPTCOPY") {
            match &file.script {
                Some(script) => match store.read_file(script.as_str()) {
                    Some(s) => {
                        let mut b = String::new();
                        b.append("<!-- ");
                        b.append(script.as_str());
                        b.append(" -->\n<script>\n");
                        b.append(s.as_str());
                        b.append("\n</script>\n<!-- END ");
                        b.append(script.as_str());
                        b.append(" -->\n");
                        proof {
                            assert(b@ =~= script_block(script@, s@));
                        }
                        b
                    },
                    None => {
                        return Err(PpxError::UnreadableFile(script.clone()));
                    },
                },
                None => {
                    return Err(PpxError::MissingBinding(file.file.clone()));
                },
            }
        } else if str_eq(self.command.as_str(), "STATICIMPORT") {
            if self.args.len() == 0 {
                return Err(PpxError::MissingArgument);
            }
            let name: &String = &self.args[0];
            proof {
                assert(self.args.deep_view()[0] == name@);
            }
            let path = match PPXDirective::get_asset(name.clone(), assets) {
                Ok(p) => p,
                Err(e) => {
                    return Err(e);
                },
            };
            match store.read_file(path.as_str()) {
                Some(s) => {
                    let mut b = String::new();
                    b.append("<!-- ");
                    b.append(name.as_str());
                    b.append(" - ");
                    b.append(path.as_str());
                    b.append(" -->\n");
                    b.append(s.as_str());
                    b.append("\n<!-- END ");
                    b.append(name.as_str());
                    b.append(" - ");
                    b.append(path.as_str());
                    b.append(" -->\n");
                    proof {
                        assert(b@ =~= import_block(name@, path@, s@));
                    }
                    b
                },
                None => {
                    return Err(PpxError::UnreadableFile(path));
                },
            }
        } else {
            return Err(PpxError::UnknownCommand(self.command));
        };
        let mut out = self.prefix;
        out.append(ppstr.as_str());
        out.append(self.suffix.as_str());
        Ok(out)
    }
}

} // verus!
