//! The font-enumeration command.
//!
//! Each platform scans a fixed list of directories for font files. The
//! application reads each directory and hands the outcome in as a
//! `DirListing`; unreadable directories are skipped silently, file names
//! are filtered by suffix where the platform asks for it, and the result
//! is the sorted, duplicate-free list of the names that remain.

use vstd::prelude::*;
use vstd::string::StrSliceExecFns;
use vstd::string::StringExecFns;
use crate::text_order::lex_lt;
use crate::text_order::strictly_sorted;
use crate::text_order::str_lex_lt;
use crate::text_order::lemma_lex_lt_trichotomy;
use crate::text_order::lemma_lex_lt_transitive;
use crate::text_order::lemma_strictly_sorted_canonical;

verus! {

/// The `.ttf` suffix.
pub open spec fn suffix_ttf() -> Seq<char> {
    seq!['.', 't', 't', 'f']
}

/// The `.otf` suffix.
pub open spec fn suffix_otf() -> Seq<char> {
    seq!['.', 'o', 't', 'f']
}

/// The `.ttc` suffix.
pub open spec fn suffix_ttc() -> Seq<char> {
    seq!['.', 't', 't', 'c']
}

/// Whether `name` ends with `suffix`.
pub open spec fn has_suffix(name: Seq<char>, suffix: Seq<char>) -> bool {
    suffix.len() <= name.len() && name.skip(name.len() - suffix.len()) == suffix
}

/// Whether a file name carries one of the recognized font-file suffixes.
pub open spec fn is_font_file_name(name: Seq<char>) -> bool {
    ||| has_suffix(name, suffix_ttf())
    ||| has_suffix(name, suffix_otf())
    ||| has_suffix(name, suffix_ttc())
}

/// Decides whether a file name carries a recognized font-file suffix.
pub fn is_font_file(name: &str) -> (r: bool)
    ensures
        r == is_font_file_name(name@),
{
    let len = name.unicode_len();
    if len < 4 {
        return false;
    }
    let c0 = name.get_char(len - 4);
    let c1 = name.get_char(len - 3);
    let c2 = name.get_char(len - 2);
    let c3 = name.get_char(len - 1);
    let r = c0 == '.' && ((c1 == 't' && c2 == 't' && (c3 == 'f' || c3 == 'c')) || (c1 == 'o'
        && c2 == 't' && c3 == 'f'));
    proof {
        let n = name@;
        let tail = n.skip(n.len() - 4);
        assert(tail =~= seq![n[n.len() - 4], n[n.len() - 3], n[n.len() - 2], n[n.len() - 1]]);
        if c0 == '.' && c1 == 't' && c2 == 't' && c3 == 'f' {
            assert(tail =~= suffix_ttf());
        }
        if c0 == '.' && c1 == 'o' && c2 == 't' && c3 == 'f' {
            assert(tail =~= suffix_otf());
        }
        if c0 == '.' && c1 == 't' && c2 == 't' && c3 == 'c' {
            assert(tail =~= suffix_ttc());
        }
    }
    r
}

/// The outcome of reading one font directory: its entries' file names, or
/// a failure. A failed directory read is never an error of the command;
/// the silent-skip policy omits the directory and enumeration goes on.
pub enum DirListing {
    /// The file names of the directory's entries, in the order the
    /// directory gave them. Entries whose names are not readable as text
    /// do not appear: the application skips them silently.
    Listed(Vec<String>),
    /// The directory could not be read (missing, permission denied);
    /// it is skipped silently.
    Unreadable,
}

/// The platform-specific side of font enumeration: which directories are
/// scanned and whether file names are filtered by suffix.
pub enum FontDirectoryProvider {
    /// Two system-wide font directories, plus a per-user font directory
    /// under the user's home directory. `home` is the home directory from
    /// the environment; when the environment gives none, the user
    /// directory is skipped silently.
    MacOs { home: Option<String> },
    /// Two system-wide font directories; every entry's name is included
    /// regardless of extension.
    Linux,
    /// One system-wide font directory.
    Windows,
}

/// The fixed directories a platform scans, in scan order.
pub open spec fn spec_font_directories(provider: FontDirectoryProvider) -> Seq<Seq<char>> {
    match provider {
        FontDirectoryProvider::MacOs { home: None } => seq![
            "/System/Library/Fonts"@,
            "/Library/Fonts"@,
        ],
        FontDirectoryProvider::MacOs { home: Some(h) } => seq![
            "/System/Library/Fonts"@,
            "/Library/Fonts"@,
            h@ + "/Library/Fonts"@,
        ],
        FontDirectoryProvider::Linux => seq!["/usr/share/fonts"@, "/usr/local/share/fonts"@],
        FontDirectoryProvider::Windows => seq!["C:\\Windows\\Fonts"@],
    }
}

/// Whether a platform filters file names by font suffix.
pub open spec fn spec_filters_extensions(provider: FontDirectoryProvider) -> bool {
    !(provider is Linux)
}

impl FontDirectoryProvider {
    /// The directories this platform scans, in scan order.
    pub fn font_directories(&self) -> (dirs: Vec<String>)
        ensures
            dirs.deep_view() == spec_font_directories(*self),
    {
        let mut dirs: Vec<String> = Vec::new();
        match self {
            FontDirectoryProvider::MacOs { home } => {
                dirs.push("/System/Library/Fonts".to_owned());
                dirs.push("/Library/Fonts".to_owned());
                match home {
                    Some(h) => {
                        dirs.push(h.clone().concat("/Library/Fonts"));
                    },
                    None => {},
                }
            },
            FontDirectoryProvider::Linux => {
                dirs.push("/usr/share/fonts".to_owned());
                dirs.push("/usr/local/share/fonts".to_owned());
            },
            FontDirectoryProvider::Windows => {
                dirs.push("C:\\Windows\\Fonts".to_owned());
            },
        }
        proof {
            assert(dirs.deep_view() =~= spec_font_directories(*self));
        }
        dirs
    }

    /// Whether this platform filters file names by font suffix.
    pub fn filters_extensions(&self) -> (b: bool)
        ensures
            b == spec_filters_extensions(*self),
    {
        match self {
            FontDirectoryProvider::Linux => false,
            _ => true,
        }
    }
}

/// Whether a name survives the platform's filter policy.
pub open spec fn passes_filter(name: Seq<char>, filter: bool) -> bool {
    filter ==> is_font_file_name(name)
}

/// Whether enumeration over `scans` collects `name`: some directory was
/// read, lists an entry of that name, and the name survives the filter.
pub open spec fn collected(scans: Seq<DirListing>, filter: bool, name: Seq<char>) -> bool {
    &&& passes_filter(name, filter)
    &&& exists|i: int|
        #![trigger scans[i]]
        0 <= i < scans.len() && (scans[i] matches DirListing::Listed(entries)
            && entries.deep_view().contains(name))
}

/// What the font list is: strictly sorted ascending — hence duplicate-free
/// — and holding exactly the collected names. By
/// [`lemma_strictly_sorted_canonical`] one sequence alone satisfies this
/// for given listings, so the list is fully determined.
pub open spec fn font_list_spec(
    scans: Seq<DirListing>,
    filter: bool,
    fonts: Seq<Seq<char>>,
) -> bool {
    &&& strictly_sorted(fonts)
    &&& forall|name: Seq<char>| #[trigger] fonts.contains(name) <==> collected(scans, filter, name)
}

/// Places `name` into a strictly sorted list of names, keeping the list
/// strictly sorted and adding nothing else; a name already present is not
/// duplicated.
fn insert_sorted_unique(fonts: &mut Vec<String>, name: &String)
    requires
        strictly_sorted(old(fonts).deep_view()),
    ensures
        strictly_sorted(final(fonts).deep_view()),
        forall|n: Seq<char>|
            #[trigger] final(fonts).deep_view().contains(n) <==> (old(
                fonts,
            ).deep_view().contains(n) || n == name@),
{
    let mut i: usize = 0;
    while i < fonts.len() && str_lex_lt(fonts[i].as_str(), name.as_str())
        invariant
            i <= fonts@.len(),
            *fonts == *old(fonts),
            strictly_sorted(fonts.deep_view()),
            forall|j: int| 0 <= j < i ==> lex_lt(#[trigger] fonts.deep_view()[j], name@),
        decreases fonts@.len() - i,
    {
        i = i + 1;
    }
    if i < fonts.len() && fonts[i].eq(name) {
        proof {
            assert(fonts.deep_view()[i as int] == name@);
            assert(fonts.deep_view().contains(name@));
        }
        return ;
    }
    proof {
        if i < fonts.deep_view().len() {
            lemma_lex_lt_trichotomy(fonts.deep_view()[i as int], name@);
            assert(lex_lt(name@, fonts.deep_view()[i as int]));
        }
    }
    let ghost odv = fonts.deep_view();
    let entry = name.clone();
    let ghost entry_chars = entry@;
    fonts.insert(i, entry);
    proof {
        assert(entry_chars == name@);
        let ndv = fonts.deep_view();
        assert(fonts@ =~= old(fonts)@.insert(i as int, fonts@[i as int]));
        assert(ndv.len() == odv.len() + 1);
        assert forall|k: int| 0 <= k < ndv.len() implies ndv[k] == (if k < i {
            odv[k]
        } else if k == i {
            name@
        } else {
            odv[k - 1]
        }) by {
            assert(ndv[k] == fonts@[k]@);
            if k < i {
                assert(fonts@[k] == old(fonts)@[k]);
            } else if k == i {
                assert(fonts@[k]@ == entry_chars);
            } else {
                assert(fonts@[k] == old(fonts)@[k - 1]);
            }
        }
        // The new list is strictly sorted around the insertion point.
        assert forall|p: int, q: int| 0 <= p < q < ndv.len() implies lex_lt(ndv[p], ndv[q]) by {
            if q < i {
                assert(lex_lt(odv[p], odv[q]));
            } else if p < i && q == i {
                assert(lex_lt(odv[p], name@));
            } else if p < i && q > i {
                assert(lex_lt(odv[p], odv[q - 1]));
            } else if p == i {
                assert(q > i);
                if q - 1 > i {
                    lemma_lex_lt_transitive(name@, odv[i as int], odv[q - 1]);
                } else {
                    assert(lex_lt(name@, odv[i as int]));
                }
            } else {
                assert(lex_lt(odv[p - 1], odv[q - 1]));
            }
        }
        // Membership gained the new name and nothing else.
        assert forall|n: Seq<char>|
            #[trigger] ndv.contains(n) <==> (odv.contains(n) || n == name@) by {
            if ndv.contains(n) {
                let k = choose|k: int| 0 <= k < ndv.len() && ndv[k] == n;
                if k < i {
                    assert(odv[k] == n);
                } else if k > i {
                    assert(odv[k - 1] == n);
                }
            }
            if odv.contains(n) {
                let k = choose|k: int| 0 <= k < odv.len() && odv[k] == n;
                if k < i {
                    assert(ndv[k] == n);
                } else {
                    assert(ndv[k + 1] == n);
                }
            }
            if n == name@ {
                assert(ndv[i as int] == n);
            }
        }
    }
}

/// Taking one more name into view adds exactly that name's membership.
proof fn lemma_take_one_more_name(names: Seq<Seq<char>>, j: int, name: Seq<char>)
    requires
        0 <= j < names.len(),
    ensures
        names.take(j + 1).contains(name) <==> (names.take(j).contains(name) || name == names[j]),
{
    if names.take(j + 1).contains(name) {
        let k = choose|k: int| 0 <= k < names.take(j + 1).len() && #[trigger] names.take(j + 1)[k] == name;
        if k < j {
            assert(names.take(j)[k] == name);
        }
    }
    if names.take(j).contains(name) {
        let k = choose|k: int| 0 <= k < names.take(j).len() && #[trigger] names.take(j)[k] == name;
        assert(names.take(j + 1)[k] == name);
    }
    if name == names[j] {
        assert(names.take(j + 1)[j] == name);
    }
}

/// Scanning one more directory collects exactly what that directory
/// lists — nothing, if it was unreadable.
proof fn lemma_collected_step(scans: Seq<DirListing>, filter: bool, k: int, name: Seq<char>)
    requires
        0 <= k < scans.len(),
    ensures
        collected(scans.take(k + 1), filter, name) <==> (collected(scans.take(k), filter, name)
            || (passes_filter(name, filter) && (scans[k] matches DirListing::Listed(entries)
            && entries.deep_view().contains(name)))),
{
    if collected(scans.take(k + 1), filter, name) {
        let i = choose|i: int|
            0 <= i < scans.take(k + 1).len() && (#[trigger] scans.take(k + 1)[i] matches
            DirListing::Listed(entries) && entries.deep_view().contains(name));
        if i < k {
            assert(scans.take(k)[i] == scans[i]);
        } else {
            assert(scans.take(k + 1)[i] == scans[k]);
        }
    }
    if collected(scans.take(k), filter, name) {
        let i = choose|i: int|
            0 <= i < scans.take(k).len() && (#[trigger] scans.take(k)[i] matches
            DirListing::Listed(entries) && entries.deep_view().contains(name));
        assert(scans.take(k + 1)[i] == scans[i]);
    }
    if passes_filter(name, filter) && (scans[k] matches DirListing::Listed(entries)
        && entries.deep_view().contains(name)) {
        assert(scans.take(k + 1)[k] == scans[k]);
    }
}

/// The font-enumeration command. `scans` holds, for each directory the
/// platform scans, the outcome of reading it. The command never fails: it
/// returns the strictly sorted, duplicate-free list of every file name
/// that a readable directory lists and the platform's filter keeps;
/// unreadable directories contribute nothing and raise no error.
pub fn get_system_fonts(provider: &FontDirectoryProvider, scans: &Vec<DirListing>) -> (r: Result<
    Vec<String>,
    String,
>)
    ensures
        r matches Ok(fonts) && font_list_spec(
            scans@,
            spec_filters_extensions(*provider),
            fonts.deep_view(),
        ),
{
    let filter = provider.filters_extensions();
    let mut fonts: Vec<String> = Vec::new();
    proof {
        assert(fonts.deep_view() =~= Seq::<Seq<char>>::empty());
        assert(scans@.take(0) =~= Seq::<DirListing>::empty());
    }
    let mut k: usize = 0;
    while k < scans.len()
        invariant
            k <= scans@.len(),
            filter == spec_filters_extensions(*provider),
            strictly_sorted(fonts.deep_view()),
            forall|name: Seq<char>|
                #[trigger] fonts.deep_view().contains(name) <==> collected(
                    scans@.take(k as int),
                    filter,
                    name,
                ),
        decreases scans@.len() - k,
    {
        match &scans[k] {
            DirListing::Listed(entries) => {
                let mut j: usize = 0;
                while j < entries.len()
                    invariant
                        j <= entries@.len(),
                        k < scans@.len(),
                        scans@[k as int] == DirListing::Listed(*entries),
                        filter == spec_filters_extensions(*provider),
                        strictly_sorted(fonts.deep_view()),
                        forall|name: Seq<char>|
                            #[trigger] fonts.deep_view().contains(name) <==> (collected(
                                scans@.take(k as int),
                                filter,
                                name,
                            ) || (passes_filter(name, filter)
                                && entries.deep_view().take(j as int).contains(name))),
                    decreases entries@.len() - j,
                {
                    let name = &entries[j];
                    let keep = if filter {
                        is_font_file(name.as_str())
                    } else {
                        true
                    };
                    if keep {
                        insert_sorted_unique(&mut fonts, name);
                    }
                    proof {
                        assert(entries.deep_view()[j as int] == name@);
                        assert forall|n: Seq<char>|
                            #[trigger] entries.deep_view().take(j + 1).contains(n) <==> (
                            entries.deep_view().take(j as int).contains(n) || n == name@) by {
                            lemma_take_one_more_name(entries.deep_view(), j as int, n);
                        }
                    }
                    j = j + 1;
                }
                proof {
                    assert(entries.deep_view().take(entries@.len() as int) =~= entries.deep_view());
                    assert forall|name: Seq<char>|
                        #[trigger] fonts.deep_view().contains(name) <==> collected(
                            scans@.take(k + 1),
                            filter,
                            name,
                        ) by {
                        lemma_collected_step(scans@, filter, k as int, name);
                    }
                }
            },
            DirListing::Unreadable => {
                proof {
                    assert forall|name: Seq<char>|
                        #[trigger] fonts.deep_view().contains(name) <==> collected(
                            scans@.take(k + 1),
                            filter,
                            name,
                        ) by {
                        lemma_collected_step(scans@, filter, k as int, name);
                    }
                }
            },
        }
        k = k + 1;
    }
    proof {
        assert(scans@.take(scans@.len() as int) =~= scans@);
    }
    Ok(fonts)
}

/// Enumeration is repeatable: over unchanged directory listings, any two
/// font lists that the command's contract allows are one and the same
/// sorted, duplicate-free sequence.
pub proof fn lemma_font_list_repeatable(
    scans: Seq<DirListing>,
    filter: bool,
    first: Seq<Seq<char>>,
    second: Seq<Seq<char>>,
)
    requires
        font_list_spec(scans, filter, first),
        font_list_spec(scans, filter, second),
    ensures
        first == second,
{
    assert forall|name: Seq<char>| first.contains(name) <==> second.contains(name) by {
        assert(first.contains(name) <==> collected(scans, filter, name));
        assert(second.contains(name) <==> collected(scans, filter, name));
    }
    lemma_strictly_sorted_canonical(first, second);
}

} // verus!
