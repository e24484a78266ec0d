use vstd::prelude::*;
use vstd::string::StringExecFns;

use crate::balance::capped;
use crate::catalog::{found_in_sources, name_views, result_views, source_recipe_count, JsonFormat};
use crate::recipe::GregtechRecipe;
use crate::text::{decimal, push_decimal};

verus! {

/// The state of the recipe viewer: the search keyword, the chosen catalog
/// file and the catalog loaded from it, the rows of the last search, and the
/// rows whose details are shown (by position in the rows, each once).
pub struct GtnhRecipeViewerApp {
    pub label: String,
    pub filename: Option<String>,
    pub recipes_json: Option<JsonFormat>,
    pub search_results: Vec<(String, GregtechRecipe)>,
    pub selection: Vec<usize>,
}

/// The status line of a viewer.
pub open spec fn status_text(loaded: Option<nat>, results: nat) -> Seq<char> {
    match loaded {
        Some(n) => "Total recipes loaded: "@ + decimal(n) + ", search results: "@ + decimal(results),
        None => "No recipes loaded!"@,
    }
}

impl GtnhRecipeViewerApp {
    /// Every selected row exists, and none is selected twice.
    pub open spec fn wf(&self) -> bool {
        &&& forall|i: int| 0 <= i < self.selection@.len() ==> #[trigger] self.selection@[i] < self.search_results@.len()
        &&& self.selection@.no_duplicates()
    }

    /// A viewer with no file, no catalog, no results and nothing selected.
    pub fn new() -> (r: Self)
        ensures
            r.wf(),
            r.label@ == "Hello World!"@,
            r.filename is None,
            r.recipes_json is None,
            r.search_results@.len() == 0,
            r.selection@.len() == 0,
    {
        proof {
            reveal_strlit("Hello World!");
        }
        GtnhRecipeViewerApp {
            label: "Hello World!".to_string(),
            filename: None,
            recipes_json: None,
            search_results: Vec::new(),
            selection: Vec::new(),
        }
    }

    /// Installs the catalog read from `filename`; results and selection are
    /// kept until the next search.
    pub fn load(&mut self, filename: String, catalog: JsonFormat)
        requires
            old(self).wf(),
        ensures
            final(self).wf(),
            final(self).filename == Some(filename),
            final(self).recipes_json == Some(catalog),
            final(self).label == old(self).label,
            final(self).search_results == old(self).search_results,
            final(self).selection == old(self).selection,
    {
        self.filename = Some(filename);
        self.recipes_json = Some(catalog);
    }

    /// Forgets the file and its catalog, so that another can be chosen.
    pub fn open_new_file(&mut self)
        requires
            old(self).wf(),
        ensures
            final(self).wf(),
            final(self).filename is None,
            final(self).recipes_json is None,
            final(self).label == old(self).label,
            final(self).search_results == old(self).search_results,
            final(self).selection == old(self).selection,
    {
        self.filename = None;
        self.recipes_json = None;
    }

    /// Runs a search for the catalog recipes that mention one of
    /// `matching_names` (the names judged close to the keyword). The rows
    /// are replaced, and the selection cleared, only when a catalog is
    /// loaded.
    pub fn search(&mut self, matching_names: &Vec<String>)
        requires
            old(self).wf(),
        ensures
            final(self).wf(),
            final(self).label == old(self).label,
            final(self).filename == old(self).filename,
            final(self).recipes_json == old(self).recipes_json,
            old(self).recipes_json is Some ==> result_views(final(self).search_results@) == found_in_sources(
                old(self).recipes_json->Some_0.sources@,
                name_views(matching_names@),
            ) && final(self).selection@.len() == 0,
            old(self).recipes_json is None ==> final(self).search_results == old(self).search_results
                && final(self).selection == old(self).selection,
    {
        let found = match &self.recipes_json {
            Some(recipes) => Some(recipes.search(matching_names)),
            None => None,
        };
        match found {
            Some(rows) => {
                self.search_results = rows;
                self.selection = Vec::new();
            },
            None => {},
        }
    }

    /// Whether row `row_index` is selected.
    pub fn is_selected(&self, row_index: usize) -> (r: bool)
        ensures
            r == self.selection@.contains(row_index),
    {
        let mut i: usize = 0;
        while i < self.selection.len()
            invariant
                0 <= i <= self.selection@.len(),
                forall|k: int| 0 <= k < i ==> self.selection@[k] != row_index,
            decreases self.selection@.len() - i,
        {
            if self.selection[i] == row_index {
                return true;
            }
            i = i + 1;
        }
        false
    }

    /// Deselects row `row_index`, closing its details.
    pub fn close_details(&mut self, row_index: usize)
        requires
            old(self).wf(),
        ensures
            final(self).wf(),
            forall|r: usize| #[trigger]
                final(self).selection@.contains(r) <==> (old(self).selection@.contains(r) && r != row_index),
            final(self).label == old(self).label,
            final(self).filename == old(self).filename,
            final(self).recipes_json == old(self).recipes_json,
            final(self).search_results == old(self).search_results,
    {
        let ghost old_sel = self.selection@;
        let mut kept: Vec<usize> = Vec::new();
        let mut i: usize = 0;
        while i < self.selection.len()
            invariant
                self.selection@ == old_sel,
                old_sel.no_duplicates(),
                0 <= i <= old_sel.len(),
                kept@ == without(old_sel.take(i as int), row_index),
            decreases old_sel.len() - i,
        {
            let r = self.selection[i];
            proof {
                reveal(Seq::filter);
                assert(old_sel.take(i as int + 1).drop_last() =~= old_sel.take(i as int));
                assert(old_sel.take(i as int + 1).last() == r);
            }
            if r != row_index {
                kept.push(r);
            }
            i = i + 1;
        }
        proof {
            assert(old_sel.take(i as int) =~= old_sel);
            lemma_filter_keeps(old_sel, row_index);
        }
        self.selection = kept;
    }

    /// A click on row `row_index`: selects it when it was not selected,
    /// deselects it when it was. A click past the last row does nothing.
    pub fn toggle_row_selection(&mut self, row_index: usize)
        requires
            old(self).wf(),
        ensures
            final(self).wf(),
            row_index < old(self).search_results@.len() ==> forall|r: usize| #[trigger]
                final(self).selection@.contains(r) <==> if r == row_index {
                    !old(self).selection@.contains(r)
                } else {
                    old(self).selection@.contains(r)
                },
            row_index >= old(self).search_results@.len() ==> final(self).selection == old(self).selection,
            final(self).label == old(self).label,
            final(self).filename == old(self).filename,
            final(self).recipes_json == old(self).recipes_json,
            final(self).search_results == old(self).search_results,
    {
        if row_index >= self.search_results.len() {
            return;
        }
        if self.is_selected(row_index) {
            self.close_details(row_index);
        } else {
            let ghost old_sel = self.selection@;
            self.selection.push(row_index);
            proof {
                assert forall|r: usize| #[trigger] self.selection@.contains(r) <==> (old_sel.contains(r) || r
                    == row_index) by {
                    if old_sel.contains(r) {
                        let k = choose|k: int| 0 <= k < old_sel.len() && old_sel[k] == r;
                        assert(self.selection@[k] == r);
                    }
                    if r == row_index {
                        assert(self.selection@[old_sel.len() as int] == r);
                    }
                }
                assert forall|i: int| 0 <= i < self.selection@.len() implies #[trigger] self.selection@[i]
                    < self.search_results@.len() by {
                    if i < old_sel.len() {
                        assert(self.selection@[i] == old_sel[i]);
                    }
                }
                assert forall|i: int, j: int|
                    0 <= i < self.selection@.len() && 0 <= j < self.selection@.len() && i != j implies self.selection@[i]
                    != self.selection@[j] by {
                    if i < old_sel.len() && j < old_sel.len() {
                        assert(self.selection@[i] == old_sel[i] && self.selection@[j] == old_sel[j]);
                    } else if i < old_sel.len() {
                        assert(self.selection@[i] == old_sel[i]);
                        assert(old_sel.contains(old_sel[i]));
                    } else if j < old_sel.len() {
                        assert(self.selection@[j] == old_sel[j]);
                        assert(old_sel.contains(old_sel[j]));
                    }
                }
            }
        }
    }

    /// The status line: how many recipes are loaded and how many rows the
    /// last search found, or that nothing is loaded.
    pub fn status_line(&self) -> (r: String)
        ensures
            r@ == status_text(
                match self.recipes_json {
                    Some(c) => Some(capped(source_recipe_count(c.sources@))),
                    None => None,
                },
                self.search_results@.len(),
            ),
    {
        match &self.recipes_json {
            Some(recipes) => {
                proof {
                    reveal_strlit("Total recipes loaded: ");
                    reveal_strlit(", search results: ");
                }
                let mut s = "Total recipes loaded: ".to_string();
                push_decimal(&mut s, recipes.get_recipe_count());
                s.append(", search results: ");
                push_decimal(&mut s, self.search_results.len());
                s
            },
            None => {
                proof {
                    reveal_strlit("No recipes loaded!");
                }
                "No recipes loaded!".to_string()
            },
        }
    }
}

/// `s` without the value `x`.
pub open spec fn without(s: Seq<usize>, x: usize) -> Seq<usize> {
    s.filter(|r: usize| r != x)
}

/// Filtering one value out of a sequence without duplicates keeps the others
/// exactly, each once, and only within the original elements.
proof fn lemma_filter_keeps(s: Seq<usize>, x: usize)
    requires
        s.no_duplicates(),
    ensures
        without(s, x).no_duplicates(),
        forall|r: usize| #[trigger] without(s, x).contains(r) <==> (s.contains(r) && r != x),
        forall|i: int| 0 <= i < without(s, x).len() ==> s.contains(#[trigger] without(s, x)[i]),
    decreases s.len(),
{
    let p = |r: usize| r != x;
    reveal(Seq::filter);
    if s.len() > 0 {
        let d = s.drop_last();
        assert(d.no_duplicates()) by {
            assert forall|i: int, j: int| 0 <= i < d.len() && 0 <= j < d.len() && i != j implies d[i] != d[j] by {
                assert(d[i] == s[i] && d[j] == s[j]);
            }
        }
        lemma_filter_keeps(d, x);
        assert(s =~= d.push(s.last()));
        let fd = without(d, x);
        assert(!d.contains(s.last())) by {
            if d.contains(s.last()) {
                let k = choose|k: int| 0 <= k < d.len() && d[k] == s.last();
                assert(s[k] == s[s.len() - 1]);
            }
        }
        assert forall|r: usize| #[trigger] s.contains(r) <==> (d.contains(r) || r == s.last()) by {
            if s.contains(r) {
                let k = choose|k: int| 0 <= k < s.len() && s[k] == r;
                if k < d.len() {
                    assert(d[k] == r);
                }
            }
            if d.contains(r) {
                let k = choose|k: int| 0 <= k < d.len() && d[k] == r;
                assert(s[k] == r);
            }
            if r == s.last() {
                assert(s[s.len() - 1] == r);
            }
        }
        if p(s.last()) {
            let f = fd.push(s.last());
            assert(without(s, x) == f);
            assert forall|r: usize| #[trigger] f.contains(r) <==> (fd.contains(r) || r == s.last()) by {
                if f.contains(r) {
                    let k = choose|k: int| 0 <= k < f.len() && f[k] == r;
                    if k < fd.len() {
                        assert(fd[k] == r);
                    }
                }
                if fd.contains(r) {
                    let k = choose|k: int| 0 <= k < fd.len() && fd[k] == r;
                    assert(f[k] == r);
                }
                if r == s.last() {
                    assert(f[fd.len() as int] == r);
                }
            }
            assert forall|i: int, j: int| 0 <= i < f.len() && 0 <= j < f.len() && i != j implies f[i] != f[j] by {
                if i < fd.len() && j < fd.len() {
                    assert(f[i] == fd[i] && f[j] == fd[j]);
                } else if i < fd.len() {
                    assert(f[i] == fd[i]);
                    assert(d.contains(fd[i]));
                } else if j < fd.len() {
                    assert(f[j] == fd[j]);
                    assert(d.contains(fd[j]));
                }
            }
            assert forall|i: int| 0 <= i < f.len() implies s.contains(#[trigger] f[i]) by {
                if i < fd.len() {
                    assert(f[i] == fd[i]);
                    assert(d.contains(fd[i]));
                } else {
                    assert(f[i] == s.last());
                }
            }
        } else {
            assert(without(s, x) == fd);
        }
    }
}

} // verus!
