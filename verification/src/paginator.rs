//! The paginator: an ordered list of picture paths scanned from a
//! directory, a one-based cursor persisted between runs, and the rule that
//! turns an action into the selected path and the state to persist.

use vstd::prelude::*;

use crate::text;
use rand::Rng;

verus! {

/// The request made on the command line; anything unrecognised selects the
/// default behaviour, the first scanned file.
#[derive(Clone, Copy, PartialEq, Eq, Structural, Debug)]
pub enum Action {
    Prev,
    Next,
    Rand,
    Other,
}

/// Why no path could be produced.
#[derive(Clone, Copy, PartialEq, Eq, Structural, Debug)]
pub enum PicError {
    /// A random pick was asked of an empty list.
    EmptyCollection,
    /// The persisted name was missing or matches no scanned file.
    CursorLookupFailed,
    /// There is no first file to fall back on.
    NoSelection,
}

/// The two pieces of text to persist: the page number in decimal, and the
/// path to record as the current name, where one is owed.
#[derive(Debug, PartialEq)]
pub struct StateWrite {
    pub page_text: String,
    pub name: Option<String>,
}

/// A produced path, and the state to persist along with it, if any.
#[derive(Debug, PartialEq)]
pub struct Selection {
    pub path: String,
    pub write: Option<StateWrite>,
}

impl Action {
    /// The action named by a command-line argument.
    pub fn parse(s: &String) -> (a: Action)
        ensures
            a == (if s@ == "prev"@ {
                Action::Prev
            } else if s@ == "next"@ {
                Action::Next
            } else if s@ == "rand"@ {
                Action::Rand
            } else {
                Action::Other
            }),
    {
        if *s == "prev".to_owned() {
            Action::Prev
        } else if *s == "next".to_owned() {
            Action::Next
        } else if *s == "rand".to_owned() {
            Action::Rand
        } else {
            Action::Other
        }
    }
}

/// The paths of `files` that carry the `jpg` extension, in their original
/// order.
pub open spec fn jpg_filter(files: Seq<Seq<char>>) -> Seq<Seq<char>>
    decreases files.len(),
{
    if files.len() == 0 {
        Seq::empty()
    } else if text::is_jpg_path(files.last()) {
        jpg_filter(files.drop_last()).push(files.last())
    } else {
        jpg_filter(files.drop_last())
    }
}

/// The first index at which `name` stands in `files`.
pub open spec fn spec_find(files: Seq<Seq<char>>, name: Seq<char>) -> Option<int>
    decreases files.len(),
{
    if files.len() == 0 {
        None
    } else if files[0] == name {
        Some(0int)
    } else {
        match spec_find(files.skip(1), name) {
            Some(i) => Some(i + 1),
            None => None,
        }
    }
}

/// A found index lies in the list and names the sought entry.
proof fn lemma_spec_find_bounds(files: Seq<Seq<char>>, name: Seq<char>)
    ensures
        spec_find(files, name) matches Some(i) ==> 0 <= i < files.len() && files[i] == name,
    decreases files.len(),
{
    if files.len() > 0 && files[0] != name {
        lemma_spec_find_bounds(files.skip(1), name);
    }
}

/// One page back, wrapping from the first page to the last.
pub open spec fn prev_page(page: int, total: int) -> int {
    if page <= 1 {
        total
    } else {
        page - 1
    }
}

/// One page forward, wrapping from the last page to the first.
pub open spec fn next_page(page: int, total: int) -> int {
    if page >= total {
        1
    } else {
        page + 1
    }
}

/// What a persisted write must hold for a cursor standing at `page`: the
/// page in decimal, and the path at that page where there is one.
pub open spec fn write_matches(w: StateWrite, page: int, fs: Seq<Seq<char>>) -> bool {
    &&& w.page_text@ == text::spec_decimal(page)
    &&& (1 <= page <= fs.len() ==> (w.name matches Some(nm) && nm@ == fs[page - 1]))
    &&& (!(1 <= page <= fs.len()) ==> w.name is None)
}

/// The paginator's state for one invocation: the scanned list, its length,
/// the cursor, and the requested action.
pub struct Pic {
    pub filelists: Vec<String>,
    pub total: usize,
    pub currentpage: usize,
    pub action: Action,
}

impl Pic {
    /// The scanned paths as sequences of characters.
    pub open spec fn files(self) -> Seq<Seq<char>> {
        self.filelists.deep_view()
    }

    /// The recorded length agrees with the list.
    pub open spec fn wf(self) -> bool {
        self.total == self.filelists@.len()
    }

    /// A fresh paginator: the scanned entries narrowed to `jpg` files, and
    /// the cursor read from the raw contents of the page file, one where
    /// that file was absent or spells no number.
    pub fn new(scanned: Vec<String>, page_contents: Option<String>, action: Action) -> (p: Pic)
        ensures
            p.wf(),
            p.files() == jpg_filter(scanned.deep_view()),
            p.action == action,
            p.currentpage as int == (match page_contents {
                Some(s) => text::page_or_one(s@),
                None => 1int,
            }),
    {
        let filelists = Self::get_file_lists(&scanned);
        let total = filelists.len();
        let currentpage = match &page_contents {
            Some(s) => text::parse_page(s.as_str()),
            None => 1,
        };
        Pic { filelists, total, currentpage, action }
    }

    /// The scanned entries that carry the `jpg` extension, in scan order.
    pub fn get_file_lists(scanned: &Vec<String>) -> (r: Vec<String>)
        ensures
            r.deep_view() == jpg_filter(scanned.deep_view()),
    {
        let mut r: Vec<String> = Vec::new();
        let mut i: usize = 0;
        proof {
            assert(scanned.deep_view().take(0) =~= Seq::<Seq<char>>::empty());
        }
        while i < scanned.len()
            invariant
                i <= scanned.len(),
                r.deep_view() == jpg_filter(scanned.deep_view().take(i as int)),
            decreases scanned.len() - i,
        {
            let ghost pre = scanned.deep_view().take(i as int);
            let ghost post = scanned.deep_view().take(i + 1);
            proof {
                assert(post.drop_last() =~= pre);
                assert(post.last() == scanned.deep_view()[i as int]);
            }
            if text::has_jpg_extension(scanned[i].as_str()) {
                let ghost before = r.deep_view();
                r.push(scanned[i].clone());
                proof {
                    assert(r.deep_view() =~= before.push(scanned.deep_view()[i as int]));
                }
            }
            i = i + 1;
        }
        proof {
            assert(scanned.deep_view().take(scanned.len() as int) =~= scanned.deep_view());
        }
        r
    }

    /// The page one step back from the cursor, wrapping to the last page.
    pub fn get_pre_page(&self) -> (p: usize)
        ensures
            p as int == prev_page(self.currentpage as int, self.total as int),
    {
        if self.currentpage <= 1 {
            self.total
        } else {
            self.currentpage - 1
        }
    }

    /// The page one step forward from the cursor, wrapping to the first.
    pub fn get_next_page(&self) -> (p: usize)
        ensures
            p as int == next_page(self.currentpage as int, self.total as int),
    {
        if self.currentpage >= self.total {
            1
        } else {
            self.currentpage + 1
        }
    }

    /// The first index at which `name` stands in `files`.
    fn find_index(files: &Vec<String>, name: &String) -> (r: Option<usize>)
        ensures
            match r {
                Some(i) => spec_find(files.deep_view(), name@) == Some(i as int),
                None => spec_find(files.deep_view(), name@) is None,
            },
    {
        let ghost fs = files.deep_view();
        let mut i: usize = 0;
        proof {
            assert(fs.skip(0) =~= fs);
        }
        while i < files.len()
            invariant
                i <= files.len(),
                fs == files.deep_view(),
                fs.len() == files@.len(),
                match spec_find(fs.skip(i as int), name@) {
                    Some(k) => spec_find(fs, name@) == Some(k + i),
                    None => spec_find(fs, name@) is None,
                },
            decreases files.len() - i,
        {
            proof {
                assert(fs.skip(i as int)[0] == fs[i as int]);
            }
            if files[i] == *name {
                return Some(i);
            }
            proof {
                assert(fs.skip(i as int).skip(1) =~= fs.skip(i + 1));
            }
            i = i + 1;
        }
        proof {
            assert(fs.skip(i as int) =~= Seq::<Seq<char>>::empty());
        }
        None
    }

    /// The persisted form of the cursor: the page number in decimal, and
    /// the path at the cursor where the cursor points into the list.
    fn state_write(&self) -> (w: StateWrite)
        requires
            self.wf(),
        ensures
            write_matches(w, self.currentpage as int, self.files()),
    {
        let page_text = text::decimal_string(self.currentpage);
        let name = if 1 <= self.currentpage && self.currentpage <= self.total {
            Some(self.filelists[self.currentpage - 1].clone())
        } else {
            None
        };
        StateWrite { page_text, name }
    }

    /// The outcome of a random draw of `rand_num`: the cursor moves to the
    /// draw itself, taken as a page number although the draw counts from
    /// zero, so the selected path is the one at index `rand_num` while the
    /// persisted name lags one entry behind it, and is absent for a draw
    /// of zero.
    pub fn apply_rand(&mut self, rand_num: usize) -> (sel: Selection)
        requires
            old(self).wf(),
            rand_num < old(self).total,
        ensures
            final(self).wf(),
            final(self).filelists == old(self).filelists,
            final(self).total == old(self).total,
            final(self).action == old(self).action,
            final(self).currentpage == rand_num,
            sel.path@ == old(self).files()[rand_num as int],
            sel.write matches Some(w) && write_matches(w, rand_num as int, old(self).files()),
    {
        self.currentpage = rand_num;
        let w = self.state_write();
        let path = self.filelists[self.currentpage].clone();
        Selection { path, write: Some(w) }
    }

    /// Carries out the requested action against the freshly scanned list
    /// and the raw contents of the persisted name file.
    ///
    /// `prev` and `next` locate the trimmed persisted name in the list,
    /// step the one-based page found there, and select the path at the new
    /// page; when the name is missing or matches nothing the lookup fails
    /// and nothing changes. `rand` draws an index and hands it to
    /// `apply_rand`; drawn on an empty list it fails. Any other action
    /// selects the first entry and persists nothing.
    pub fn run(&mut self, current_name: Option<String>) -> (r: Result<Selection, PicError>)
        requires
            old(self).wf(),
        ensures
            final(self).wf(),
            final(self).filelists == old(self).filelists,
            final(self).total == old(self).total,
            final(self).action == old(self).action,
            (old(self).action is Other ==> ({
                let fs = old(self).files();
                &&& *final(self) == *old(self)
                &&& (fs.len() > 0 ==> (r matches Ok(sel) && sel.path@ == fs[0] && sel.write
                    is None))
                &&& (fs.len() == 0 ==> r == Err::<Selection, PicError>(PicError::NoSelection))
            })),
            (old(self).action is Rand ==> ({
                let fs = old(self).files();
                &&& (fs.len() == 0 ==> r == Err::<Selection, PicError>(PicError::EmptyCollection)
                    && *final(self) == *old(self))
                &&& (fs.len() > 0 ==> (r matches Ok(sel) && (exists|k: int|
                    {
                        &&& 0 <= k < fs.len()
                        &&& sel.path@ == #[trigger] fs[k]
                        &&& final(self).currentpage == k
                        &&& (sel.write matches Some(w) && write_matches(w, k, fs))
                    })))
            })),
            (old(self).action is Prev ==> ({
                let fs = old(self).files();
                match current_name {
                    None => r == Err::<Selection, PicError>(PicError::CursorLookupFailed)
                        && *final(self) == *old(self),
                    Some(raw) => (match spec_find(fs, text::spec_trim(raw@)) {
                        None => r == Err::<Selection, PicError>(PicError::CursorLookupFailed)
                            && *final(self) == *old(self),
                        Some(i) => ({
                            let newp = prev_page(i + 1, fs.len() as int);
                            &&& final(self).currentpage == newp
                            &&& r matches Ok(sel)
                            &&& sel.path@ == fs[newp - 1]
                            &&& (sel.write matches Some(w) && write_matches(w, newp, fs))
                        }),
                    }),
                }
            })),
            (old(self).action is Next ==> ({
                let fs = old(self).files();
                match current_name {
                    None => r == Err::<Selection, PicError>(PicError::CursorLookupFailed)
                        && *final(self) == *old(self),
                    Some(raw) => (match spec_find(fs, text::spec_trim(raw@)) {
                        None => r == Err::<Selection, PicError>(PicError::CursorLookupFailed)
                            && *final(self) == *old(self),
                        Some(i) => ({
                            let newp = next_page(i + 1, fs.len() as int);
                            &&& final(self).currentpage == newp
                            &&& r matches Ok(sel)
                            &&& sel.path@ == fs[newp - 1]
                            &&& (sel.write matches Some(w) && write_matches(w, newp, fs))
                        }),
                    }),
                }
            })),
    {
        match self.action {
            Action::Prev => {
                match current_name {
                    None => Err(PicError::CursorLookupFailed),
                    Some(raw) => {
                        let nm = text::trimmed(raw.as_str());
                        match Self::find_index(&self.filelists, &nm) {
                            None => Err(PicError::CursorLookupFailed),
                            Some(i) => {
                                proof {
                                    lemma_spec_find_bounds(self.filelists.deep_view(), nm@);
                                }
                                self.currentpage = i + 1;
                                self.currentpage = self.get_pre_page();
                                let w = self.state_write();
                                let path = self.filelists[self.currentpage - 1].clone();
                                Ok(Selection { path, write: Some(w) })
                            },
                        }
                    },
                }
            },
            Action::Next => {
                match current_name {
                    None => Err(PicError::CursorLookupFailed),
                    Some(raw) => {
                        let nm = text::trimmed(raw.as_str());
                        match Self::find_index(&self.filelists, &nm) {
                            None => Err(PicError::CursorLookupFailed),
                            Some(i) => {
                                proof {
                                    lemma_spec_find_bounds(self.filelists.deep_view(), nm@);
                                }
                                self.currentpage = i + 1;
                                self.currentpage = self.get_next_page();
                                let w = self.state_write();
                                let path = self.filelists[self.currentpage - 1].clone();
                                Ok(Selection { path, write: Some(w) })
                            },
                        }
                    },
                }
            },
            Action::Rand => {
                if self.total == 0 {
                    Err(PicError::EmptyCollection)
                } else {
                    let k = rand_below(self.total);
                    let sel = self.apply_rand(k);
                    proof {
                        let fs = old(self).files();
                        assert(sel.path@ == fs[k as int]);
                    }
                    Ok(sel)
                }
            },
            Action::Other => {
                if self.filelists.len() > 0 {
                    let path = self.filelists[0].clone();
                    Ok(Selection { path, write: None })
                } else {
                    Err(PicError::NoSelection)
                }
            },
        }
    }
}

/// Relies on rand::Rng::gen_range over rand::thread_rng: a value drawn
/// uniformly from the half-open range below `n`; the call panics only on
/// an empty range, which the precondition rules out.
#[verifier::external_body]
fn rand_below(n: usize) -> (r: usize)
    requires
        n > 0,
    ensures
        r < n,
{
    let mut rng = rand::thread_rng();
    rng.gen_range(0..n)
}

} // verus!
