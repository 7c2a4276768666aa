//! Laws of the expansion engine, proved from the specifications alone.

use vstd::prelude::*;

use crate::engine::{expand_from, pass_lines};
use crate::model::{ErrView, StaticSiteAsset, StaticSiteFile};
use crate::parser::line_has_directive;
use crate::text::{join_lines, lemma_join_split, lemma_split_join, lemma_split_lines_no_nl,
    split_lines};

verus! {

/// A pass over directive-free lines keeps every line and matches nothing.
pub proof fn lemma_pass_stable(
    lines: Seq<Seq<char>>,
    file: StaticSiteFile,
    assets: Seq<StaticSiteAsset>,
    store: Seq<(String, String)>,
)
    requires
        forall|i: int| 0 <= i < lines.len() ==> !line_has_directive(#[trigger] lines[i]),
    ensures
        pass_lines(lines, file, assets, store) == Ok::<(Seq<Seq<char>>, bool), ErrView>(
            (lines, false),
        ),
    decreases lines.len(),
{
    if lines.len() == 0 {
        assert(pass_lines(lines, file, assets, store) == Ok::<(Seq<Seq<char>>, bool), ErrView>(
            (Seq::<Seq<char>>::empty(), false),
        ));
        assert(lines =~= Seq::<Seq<char>>::empty());
    } else {
        lemma_pass_stable(lines.drop_first(), file, assets, store);
        assert(seq![lines[0]] + lines.drop_first() =~= lines);
    }
}

/// A pass that matched nothing left the lines unchanged, and then no line
/// holds a directive.
pub proof fn lemma_pass_unchanged(
    lines: Seq<Seq<char>>,
    file: StaticSiteFile,
    assets: Seq<StaticSiteAsset>,
    store: Seq<(String, String)>,
)
    ensures
        match pass_lines(lines, file, assets, store) {
            Ok(pr) => !pr.1 ==> (pr.0 == lines && forall|i: int|
                0 <= i < lines.len() ==> !line_has_directive(#[trigger] lines[i])),
            Err(_) => true,
        },
    decreases lines.len(),
{
    if lines.len() == 0 {
        assert(pass_lines(lines, file, assets, store)->Ok_0.0 =~= lines);
    } else {
        lemma_pass_unchanged(lines.drop_first(), file, assets, store);
        match pass_lines(lines, file, assets, store) {
            Ok(pr) => {
                if !pr.1 {
                    assert(!line_has_directive(lines[0]));
                    let rest = pass_lines(lines.drop_first(), file, assets, store)->Ok_0;
                    assert(!rest.1);
                    assert(pr.0 =~= lines) by {
                        assert(rest.0 == lines.drop_first());
                        assert(seq![lines[0]] + lines.drop_first() =~= lines);
                    }
                    assert(forall|i: int|
                        1 <= i < lines.len() ==> lines[i] == lines.drop_first()[i - 1]);
                }
            },
            Err(_) => {},
        }
    }
}

/// The last character of joined lines: the last piece's last character when
/// that piece is not empty, a newline when it is empty and not alone.
pub proof fn lemma_join_last(v: Seq<Seq<char>>)
    requires
        v.len() > 0,
    ensures
        join_lines(v).len() >= v.last().len(),
        v.last().len() > 0 ==> join_lines(v).len() > 0 && join_lines(v).last()
            == v.last().last(),
        v.last().len() == 0 && v.len() >= 2 ==> join_lines(v).len() > 0 && join_lines(v).last()
            == '\n',
    decreases v.len(),
{
    if v.len() == 1 {
        assert(join_lines(v) == v[0]);
    } else {
        let rest = v.drop_first();
        lemma_join_last(rest);
        assert(rest.last() == v.last());
        assert(join_lines(v) == v[0] + seq!['\n'] + join_lines(rest));
        let w = join_lines(v);
        let rj = join_lines(rest);
        assert(w.len() == v[0].len() + 1 + rj.len());
        if rj.len() > 0 {
            assert(w.last() == rj.last());
        } else {
            assert(w.last() == '\n');
            assert(rest.last().len() <= rj.len());
        }
    }
}

/// Directive-free passthrough: content none of whose lines holds a directive,
/// and which does not end in a newline, expands to itself, whatever the
/// binding, registry, snapshot, and pass budget.
pub proof fn lemma_directive_free_passthrough(
    content: Seq<char>,
    file: StaticSiteFile,
    assets: Seq<StaticSiteAsset>,
    store: Seq<(String, String)>,
    fuel: nat,
)
    requires
        forall|i: int|
            0 <= i < split_lines(content).len() ==> !line_has_directive(
                #[trigger] split_lines(content)[i],
            ),
        content.len() > 0 ==> content.last() != '\n',
    ensures
        expand_from(content, file, assets, store, fuel) == Ok::<Seq<char>, ErrView>(content),
{
    lemma_pass_stable(split_lines(content), file, assets, store);
    lemma_join_split(content);
}

/// Idempotence of stability: once the engine reports a content stable, that
/// output, when it does not end in a newline, expands to itself, with any
/// pass budget.
pub proof fn lemma_expansion_idempotent(
    content: Seq<char>,
    file: StaticSiteFile,
    assets: Seq<StaticSiteAsset>,
    store: Seq<(String, String)>,
    fuel: nat,
    fuel2: nat,
    out: Seq<char>,
)
    requires
        expand_from(content, file, assets, store, fuel) == Ok::<Seq<char>, ErrView>(out),
        out.len() > 0 ==> out.last() != '\n',
    ensures
        expand_from(out, file, assets, store, fuel2) == Ok::<Seq<char>, ErrView>(out),
    decreases fuel,
{
    let lines = split_lines(content);
    match pass_lines(lines, file, assets, store) {
        Err(_) => {},
        Ok(pr) => {
            let joined = join_lines(pr.0);
            if !pr.1 {
                lemma_pass_unchanged(lines, file, assets, store);
                assert(pr.0 == lines);
                assert(out == joined);
                lemma_split_lines_no_nl(content);
                if out.len() == 0 {
                    assert(split_lines(out) =~= Seq::<Seq<char>>::empty());
                    lemma_pass_stable(split_lines(out), file, assets, store);
                    assert(join_lines(Seq::<Seq<char>>::empty()) =~= out);
                } else {
                    assert(lines.len() > 0) by {
                        if lines.len() == 0 {
                            assert(joined =~= Seq::<char>::empty());
                        }
                    }
                    lemma_join_last(lines);
                    assert(lines.last().len() > 0) by {
                        if lines.last().len() == 0 {
                            if lines.len() >= 2 {
                                assert(out.last() == '\n');
                            } else {
                                assert(joined == lines[0]);
                                assert(out.len() == 0);
                            }
                        }
                    }
                    lemma_split_join(lines);
                    assert(split_lines(out) == lines);
                    lemma_pass_stable(split_lines(out), file, assets, store);
                }
            } else {
                if fuel == 0 {
                } else {
                    lemma_expansion_idempotent(
                        joined,
                        file,
                        assets,
                        store,
                        (fuel - 1) as nat,
                        fuel2,
                        out,
                    );
                }
            }
        },
    }
}

} // verus!
