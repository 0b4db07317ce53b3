//! Reading the output of the remote `find -printf` listing into entries.

use vstd::prelude::*;

use crate::text::{chars_of, contains_chars, first_match, occurs_at, split, split_chars, string_of};
use crate::{FsEntry, FsEntryType, FsEntryView};

verus! {

/// The line separator of the listing.
pub open spec fn line_sep() -> Seq<char> {
    seq!['\n']
}

/// The column separator of the listing's lines.
pub open spec fn column_sep() -> Seq<char> {
    seq!['|', '|', '|']
}

/// The command that lists everything below `dir`, one line per entry, the
/// directory itself first: mode, user, group, size, mtime, path, name, link target.
pub open spec fn list_command(dir: Seq<char>) -> Seq<char> {
    "unset LANG; find \"$(cd '"@ + dir
        + "'; pwd)\" -printf '%M|||%u|||%g|||%s|||%Ts|||%p|||%f|||%l\n'"@
}

/// The command that asks for the kind of the file a link at `path` resolves to.
pub open spec fn link_probe_command(path: Seq<char>) -> Seq<char> {
    "unset LANG; find -L \"$(readlink -f "@ + path + ")\" -printf '%y'"@
}

/// What one listing line yields: an entry and, for a link, the command that probes its target.
pub struct ListingItem {
    pub entry: FsEntryView,
    pub link_probe: Option<Seq<char>>,
}

/// The columns of a listing line.
pub open spec fn line_columns(line: Seq<char>) -> Seq<Seq<char>> {
    split(line, column_sep())
}

/// A line yields an entry when it has a path column (the sixth). The entry is a
/// directory exactly when the mode starts with `d`, and a link when it starts with `l`;
/// a link is reported as a file. A link whose line carries the link target column
/// (the eighth) is to be probed.
pub open spec fn line_item(line: Seq<char>) -> Option<ListingItem> {
    let cols = line_columns(line);
    if cols.len() >= 6 {
        let t = cols[0][0];
        Some(
            ListingItem {
                entry: FsEntryView {
                    path: cols[5],
                    file_type: if t == 'd' {
                        FsEntryType::Directory
                    } else {
                        FsEntryType::File
                    },
                    is_link: t == 'l',
                },
                link_probe: if t == 'l' && cols.len() >= 8 {
                    Some(link_probe_command(cols[5]))
                } else {
                    None
                },
            },
        )
    } else {
        None
    }
}

/// The items of a sequence of lines, in order.
pub open spec fn items_of_lines(lines: Seq<Seq<char>>) -> Seq<ListingItem>
    decreases lines.len(),
{
    if lines.len() == 0 {
        seq![]
    } else {
        let prev = items_of_lines(lines.drop_last());
        match line_item(lines.last()) {
            Some(item) => prev.push(item),
            None => prev,
        }
    }
}

/// The lines of a listing.
pub open spec fn listing_lines(output: Seq<char>) -> Seq<Seq<char>> {
    split(output, line_sep())
}

/// The items of a listing: every line but the first, which names the listed directory itself.
pub open spec fn listing_items(output: Seq<char>) -> Seq<ListingItem> {
    let lines = listing_lines(output);
    if lines.len() <= 1 {
        seq![]
    } else {
        items_of_lines(lines.subrange(1, lines.len() as int))
    }
}

/// A line with a path column has a mode column whose first character is a single byte.
pub open spec fn line_parsable(line: Seq<char>) -> bool {
    let cols = line_columns(line);
    cols.len() >= 6 ==> cols[0].len() > 0 && cols[0][0] < '\u{80}'
}

/// Every line after the first can be read.
pub open spec fn listing_parsable(output: Seq<char>) -> bool {
    let lines = listing_lines(output);
    forall|i: int| 1 <= i < lines.len() ==> #[trigger] line_parsable(lines[i])
}

/// The marker by which `find` reports that it failed.
pub open spec fn find_error_marker() -> Seq<char> {
    seq!['f', 'i', 'n', 'd', ':']
}

/// Whether the output of a link probe reports that `find` failed, that is,
/// whether it holds `find:`.
pub fn probe_failed(output: &str) -> (r: bool)
    ensures
        r <==> exists|i: int| occurs_at(output@, find_error_marker(), i),
{
    let chars = chars_of(output);
    let marker = vec!['f', 'i', 'n', 'd', ':'];
    proof {
        assert(marker@ =~= find_error_marker());
    }
    contains_chars(chars.as_slice(), marker.as_slice())
}

/// An entry of the listing together with the probe its link target asks for.
pub struct ListedEntry {
    pub entry: FsEntry,
    pub link_probe: Option<String>,
}

impl ListedEntry {
    /// The abstract value of this listed entry.
    pub open spec fn item(&self) -> ListingItem {
        ListingItem {
            entry: self.entry@,
            link_probe: match self.link_probe {
                Some(c) => Some(c@),
                None => None,
            },
        }
    }
}

/// The abstract values of listed entries.
pub open spec fn listed_items(v: Seq<ListedEntry>) -> Seq<ListingItem> {
    v.map_values(|e: ListedEntry| e.item())
}

/// The command that lists `dir` (its display form) recursively.
pub fn list_dir_command(dir: &str) -> (cmd: String)
    ensures
        cmd@ == list_command(dir@),
{
    let mut cmd = "unset LANG; find \"$(cd '".to_owned();
    cmd.append(dir);
    cmd.append("'; pwd)\" -printf '%M|||%u|||%g|||%s|||%Ts|||%p|||%f|||%l\n'");
    cmd
}

/// The command that probes the target of the link at `path`.
pub fn link_probe(path: &str) -> (cmd: String)
    ensures
        cmd@ == link_probe_command(path@),
{
    let mut cmd = "unset LANG; find -L \"$(readlink -f ".to_owned();
    cmd.append(path);
    cmd.append(")\" -printf '%y'");
    cmd
}

/// The item of one line, when it has one.
fn parse_line(line: &[char]) -> (r: Option<ListedEntry>)
    requires
        line_parsable(line@),
    ensures
        match r {
            Some(e) => line_item(line@) == Some(e.item()),
            None => line_item(line@) is None,
        },
{
    let sep = vec!['|', '|', '|'];
    proof {
        assert(sep@ =~= column_sep());
    }
    let cols = split_chars(line, sep.as_slice());
    proof {
        assert(cols.deep_view() == line_columns(line@));
    }
    if cols.len() < 6 {
        return None;
    }
    let ghost vcols = cols.deep_view();
    assert(cols[0]@ =~= vcols[0]);
    assert(cols[5]@ =~= vcols[5]);
    let t = cols[0][0];
    let path = string_of(cols[5].as_slice());
    let is_link = t == 'l';
    let file_type = if t == 'd' {
        FsEntryType::Directory
    } else {
        FsEntryType::File
    };
    let link_probe = if is_link && cols.len() >= 8 {
        Some(link_probe(path.as_str()))
    } else {
        None
    };
    let e = ListedEntry { entry: FsEntry { path, file_type, is_link }, link_probe };
    proof {
        assert(e.item().entry == line_item(line@).unwrap().entry);
    }
    Some(e)
}

/// Reads a listing into its entries, in the listing's order, skipping its first line.
pub fn parse_listing(output: &str) -> (entries: Vec<ListedEntry>)
    requires
        listing_parsable(output@),
    ensures
        listed_items(entries@) == listing_items(output@),
{
    let chars = chars_of(output);
    let nl = vec!['\n'];
    proof {
        assert(nl@ =~= line_sep());
    }
    let lines = split_chars(chars.as_slice(), nl.as_slice());
    let ghost vlines = lines.deep_view();
    assert(vlines == listing_lines(output@));
    let mut entries: Vec<ListedEntry> = Vec::new();
    if lines.len() <= 1 {
        proof {
            assert(listed_items(entries@) =~= Seq::<ListingItem>::empty());
        }
        return entries;
    }
    let mut i: usize = 1;
    proof {
        assert(vlines.subrange(1, 1) =~= Seq::<Seq<char>>::empty());
        assert(listed_items(entries@) =~= Seq::<ListingItem>::empty());
    }
    while i < lines.len()
        invariant
            1 <= i <= lines@.len(),
            vlines == lines.deep_view(),
            vlines == listing_lines(output@),
            listing_parsable(output@),
            listed_items(entries@) == items_of_lines(vlines.subrange(1, i as int)),
        decreases lines@.len() - i,
    {
        assert(lines[i as int]@ =~= vlines[i as int]);
        assert(line_parsable(vlines[i as int]));
        let r = parse_line(lines[i].as_slice());
        let ghost before = entries@;
        proof {
            let s = vlines.subrange(1, i + 1);
            assert(s.drop_last() =~= vlines.subrange(1, i as int));
            assert(s.last() == vlines[i as int]);
        }
        match r {
            Some(e) => {
                entries.push(e);
                proof {
                    assert(listed_items(entries@) =~= listed_items(before).push(e.item()));
                }
            },
            None => {},
        }
        i = i + 1;
    }
    entries
}

/// Whether `output` can be read by [`parse_listing`].
pub fn listing_is_parsable(output: &str) -> (r: bool)
    ensures
        r == listing_parsable(output@),
{
    let chars = chars_of(output);
    let nl = vec!['\n'];
    proof {
        assert(nl@ =~= line_sep());
    }
    let lines = split_chars(chars.as_slice(), nl.as_slice());
    let ghost vlines = lines.deep_view();
    let sep = vec!['|', '|', '|'];
    proof {
        assert(sep@ =~= column_sep());
    }
    let mut i: usize = 1;
    while i < lines.len()
        invariant
            vlines == lines.deep_view(),
            vlines == listing_lines(output@),
            sep@ == column_sep(),
            1 <= i,
            forall|j: int| 1 <= j < i && j < vlines.len() ==> #[trigger] line_parsable(vlines[j]),
        decreases lines@.len() - i,
    {
        assert(lines[i as int]@ =~= vlines[i as int]);
        let cols = split_chars(lines[i].as_slice(), sep.as_slice());
        if cols.len() >= 6 {
            let ghost vcols = cols.deep_view();
            assert(cols[0]@ =~= vcols[0]);
            if cols[0].len() == 0 || cols[0][0] >= '\u{80}' {
                assert(vcols == line_columns(vlines[i as int]));
                assert(!line_parsable(vlines[i as int]));
                return false;
            }
        }
        i = i + 1;
    }
    true
}

} // verus!

verus! {

/// Each item of a sequence of lines is the item of one of the lines, and there
/// are no more items than lines.
proof fn lemma_items_from_lines(lines: Seq<Seq<char>>)
    ensures
        items_of_lines(lines).len() <= lines.len(),
        forall|k: int|
            0 <= k < items_of_lines(lines).len() ==> exists|j: int|
                0 <= j < lines.len() && line_item(lines[j]) == Some(
                    #[trigger] items_of_lines(lines)[k],
                ),
    decreases lines.len(),
{
    if lines.len() > 0 {
        let prev = lines.drop_last();
        lemma_items_from_lines(prev);
        let items = items_of_lines(lines);
        assert forall|k: int| 0 <= k < items.len() implies exists|j: int|
            0 <= j < lines.len() && line_item(lines[j]) == Some(#[trigger] items[k]) by {
            if k < items_of_lines(prev).len() {
                let j = choose|j: int|
                    0 <= j < prev.len() && line_item(prev[j]) == Some(items_of_lines(prev)[k]);
                assert(lines[j] == prev[j]);
            } else {
                assert(line_item(lines[lines.len() - 1]) == Some(items[k]));
            }
        }
    }
}

/// A listing reports a link as a file, never as a directory; only links get a
/// probe; every entry's path is the path column of a line after the first; and
/// there are fewer entries than lines.
pub proof fn law_listing_entries(output: Seq<char>)
    ensures
        listing_items(output).len() < listing_lines(output).len(),
        forall|k: int|
            0 <= k < listing_items(output).len() ==> {
                let item = #[trigger] listing_items(output)[k];
                &&& item.entry.is_link ==> item.entry.file_type == FsEntryType::File
                &&& item.link_probe is Some ==> item.entry.is_link
                &&& exists|j: int|
                    1 <= j < listing_lines(output).len() && line_columns(
                        listing_lines(output)[j],
                    ).len() >= 6 && item.entry.path == line_columns(listing_lines(output)[j])[5]
            },
{
    let lines = listing_lines(output);
    crate::text::law_split_join(output, line_sep());
    if lines.len() > 1 {
        let rest = lines.subrange(1, lines.len() as int);
        lemma_items_from_lines(rest);
        let items = listing_items(output);
        assert forall|k: int| 0 <= k < items.len() implies {
            let item = #[trigger] items[k];
            &&& item.entry.is_link ==> item.entry.file_type == FsEntryType::File
            &&& item.link_probe is Some ==> item.entry.is_link
            &&& exists|j: int|
                1 <= j < lines.len() && line_columns(lines[j]).len() >= 6 && item.entry.path
                    == line_columns(lines[j])[5]
        } by {
            let j = choose|j: int| 0 <= j < rest.len() && line_item(rest[j]) == Some(items[k]);
            assert(rest[j] == lines[j + 1]);
        }
    }
}

} // verus!

verus! {

/// Splitting on a one-character separator around one occurrence of it splits both sides.
proof fn lemma_split_around(x: Seq<char>, sep: Seq<char>, y: Seq<char>)
    requires
        sep.len() == 1,
    ensures
        split(x + sep + y, sep) == split(x, sep) + split(y, sep),
    decreases x.len(),
{
    let z = x + sep + y;
    crate::text::lemma_first_match(x, sep);
    assert forall|j: int| 0 <= j < x.len() implies (occurs_at(z, sep, j) <==> occurs_at(x, sep, j)) by {
        assert(z.subrange(j, j + 1) =~= seq![z[j]]);
        assert(x.subrange(j, j + 1) =~= seq![x[j]]);
    }
    match first_match(x, sep) {
        None => {
            assert(z.subrange(x.len() as int, x.len() + 1int) =~= sep);
            crate::text::lemma_first_match_is(z, sep, x.len() as int);
            assert(z.subrange(0, x.len() as int) =~= x);
            assert(z.subrange(x.len() + 1int, z.len() as int) =~= y);
            assert(split(x, sep) == seq![x]);
        },
        Some(k) => {
            crate::text::lemma_first_match_is(z, sep, k);
            let xr = x.subrange(k + 1, x.len() as int);
            lemma_split_around(xr, sep, y);
            assert(z.subrange(0, k) =~= x.subrange(0, k));
            assert(z.subrange(k + 1, z.len() as int) =~= xr + sep + y);
            assert(split(x, sep) == seq![x.subrange(0, k)] + split(xr, sep));
            assert(split(z, sep) == seq![x.subrange(0, k)] + split(xr + sep + y, sep));
            assert(split(z, sep) =~= split(x, sep) + split(y, sep));
        },
    }
}

/// The items of two runs of lines are the items of each, in order.
proof fn lemma_items_concat(l1: Seq<Seq<char>>, l2: Seq<Seq<char>>)
    ensures
        items_of_lines(l1 + l2) == items_of_lines(l1) + items_of_lines(l2),
    decreases l2.len(),
{
    if l2.len() == 0 {
        assert(l1 + l2 =~= l1);
        assert(items_of_lines(l1) + items_of_lines(l2) =~= items_of_lines(l1));
    } else {
        lemma_items_concat(l1, l2.drop_last());
        assert((l1 + l2).drop_last() =~= l1 + l2.drop_last());
        assert((l1 + l2).last() == l2.last());
        match line_item(l2.last()) {
            Some(item) => {
                assert(items_of_lines(l1 + l2) =~= items_of_lines(l1) + items_of_lines(l2));
            },
            None => {},
        }
    }
}

/// Lines without six columns yield no items.
proof fn lemma_short_lines_yield_nothing(l: Seq<Seq<char>>)
    requires
        forall|i: int| 0 <= i < l.len() ==> #[trigger] line_columns(l[i]).len() < 6,
    ensures
        items_of_lines(l) == Seq::<ListingItem>::empty(),
    decreases l.len(),
{
    if l.len() > 0 {
        assert(line_columns(l[l.len() - 1]).len() < 6);
        lemma_short_lines_yield_nothing(l.drop_last());
    }
}

/// Text that follows a complete listing (one that ends with a line break) and
/// holds no line with six columns, such as messages on the error stream,
/// changes neither whether the listing can be read nor its entries.
pub proof fn law_trailing_short_lines(a: Seq<char>, b: Seq<char>)
    requires
        a.len() > 0,
        a.last() == '\n',
        forall|i: int|
            0 <= i < listing_lines(b).len() ==> #[trigger] line_columns(listing_lines(b)[i]).len()
                < 6,
    ensures
        listing_items(a + b) == listing_items(a),
        listing_parsable(a + b) == listing_parsable(a),
{
    let sep = line_sep();
    let x = a.drop_last();
    assert(a =~= x + sep + Seq::<char>::empty());
    assert(a + b =~= x + sep + b);
    lemma_split_around(x, sep, Seq::<char>::empty());
    lemma_split_around(x, sep, b);
    crate::text::law_split_join(x, sep);
    crate::text::law_split_join(b, sep);
    let lx = split(x, sep);
    let le = split(Seq::<char>::empty(), sep);
    crate::text::lemma_first_match(Seq::<char>::empty(), sep);
    assert(le == seq![Seq::<char>::empty()]);
    let lb = listing_lines(b);
    let la = listing_lines(a);
    let lab = listing_lines(a + b);
    assert(la == lx + le);
    assert(lab == lx + lb);
    let rx = lx.subrange(1, lx.len() as int);
    assert(la.subrange(1, la.len() as int) =~= rx + le);
    assert(lab.subrange(1, lab.len() as int) =~= rx + lb);
    // the empty line is short
    let cols_empty = line_columns(Seq::<char>::empty());
    crate::text::lemma_first_match(Seq::<char>::empty(), column_sep());
    assert(cols_empty == seq![Seq::<char>::empty()]);
    assert(forall|i: int| 0 <= i < le.len() ==> #[trigger] line_columns(le[i]).len() < 6);
    lemma_items_concat(rx, le);
    lemma_items_concat(rx, lb);
    lemma_short_lines_yield_nothing(le);
    lemma_short_lines_yield_nothing(lb);
    assert(items_of_lines(rx) + Seq::<ListingItem>::empty() =~= items_of_lines(rx));
    // readability
    assert(listing_parsable(a + b) == listing_parsable(a)) by {
        assert forall|i: int| 1 <= i < lab.len() && i >= lx.len() implies #[trigger] line_parsable(
            lab[i],
        ) by {
            assert(lab[i] == lb[i - lx.len()]);
        }
        assert forall|i: int| 1 <= i < la.len() && i >= lx.len() implies #[trigger] line_parsable(
            la[i],
        ) by {
            assert(la[i] == le[i - lx.len()]);
        }
        assert forall|i: int| 1 <= i < lx.len() implies la[i] == lx[i] && lab[i] == lx[i] by {}
        if listing_parsable(a) {
            assert forall|i: int| 1 <= i < lab.len() implies #[trigger] line_parsable(lab[i]) by {
                if i < lx.len() {
                    assert(line_parsable(la[i]));
                }
            }
        }
        if listing_parsable(a + b) {
            assert forall|i: int| 1 <= i < la.len() implies #[trigger] line_parsable(la[i]) by {
                if i < lx.len() {
                    assert(line_parsable(lab[i]));
                }
            }
        }
    }
}

} // verus!

verus! {

/// The items of a run of lines are the items of the lines that have a path
/// column, one each, in order.
proof fn lemma_items_of_path_lines(lines: Seq<Seq<char>>, p: spec_fn(Seq<char>) -> bool)
    requires
        forall|l: Seq<char>| #[trigger] p(l) == (line_columns(l).len() >= 6),
    ensures
        items_of_lines(lines).len() == lines.filter(p).len(),
        forall|k: int|
            0 <= k < lines.filter(p).len() ==> line_item(#[trigger] lines.filter(p)[k]) == Some(
                items_of_lines(lines)[k],
            ),
    decreases lines.len(),
{
    reveal_with_fuel(Seq::filter, 1);
    if lines.len() > 0 {
        lemma_items_of_path_lines(lines.drop_last(), p);
        let f = lines.filter(p);
        let f0 = lines.drop_last().filter(p);
        let i0 = items_of_lines(lines.drop_last());
        if p(lines.last()) {
            assert(f == f0.push(lines.last()));
            assert(line_item(lines.last()) is Some);
            assert forall|k: int| 0 <= k < f.len() implies line_item(#[trigger] f[k]) == Some(
                items_of_lines(lines)[k],
            ) by {
                if k < f0.len() {
                    assert(f[k] == f0[k]);
                }
            }
        } else {
            assert(f == f0);
            assert(line_item(lines.last()) is None);
        }
    }
}

/// A listing has exactly one entry for each line after the first that has a
/// path (sixth) column, in the order of the lines, whatever the names. The
/// entry's path is that column; it is a directory exactly when the mode (first)
/// column starts with `d` and a link exactly when it starts with `l`; and a link
/// whose line has the target (eighth) column is probed with `find -L` on the
/// link's path.
pub proof fn law_listing_one_entry_per_path_line(output: Seq<char>)
    ensures
        ({
            let rows = split(output, seq!['\n']).drop_first().filter(
                |l: Seq<char>| split(l, seq!['|', '|', '|']).len() >= 6,
            );
            &&& listing_items(output).len() == rows.len()
            &&& forall|k: int|
                0 <= k < rows.len() ==> {
                    let cols = split(rows[k], seq!['|', '|', '|']);
                    let item = #[trigger] listing_items(output)[k];
                    &&& item.entry.path == cols[5]
                    &&& (item.entry.file_type == FsEntryType::Directory <==> cols[0][0] == 'd')
                    &&& (item.entry.file_type == FsEntryType::File <==> cols[0][0] != 'd')
                    &&& (item.entry.is_link <==> cols[0][0] == 'l')
                    &&& item.link_probe == (if cols[0][0] == 'l' && cols.len() >= 8 {
                        Some("unset LANG; find -L \"$(readlink -f "@ + cols[5] + ")\" -printf '%y'"@)
                    } else {
                        None
                    })
                }
        }),
{
    let lines = split(output, seq!['\n']);
    crate::text::law_split_join(output, seq!['\n']);
    assert(lines == listing_lines(output));
    let p = |l: Seq<char>| split(l, seq!['|', '|', '|']).len() >= 6;
    assert forall|l: Seq<char>| #[trigger] p(l) == (line_columns(l).len() >= 6) by {
        assert(column_sep() == seq!['|', '|', '|']);
    }
    let rest = lines.drop_first();
    assert(rest =~= lines.subrange(1, lines.len() as int));
    lemma_items_of_path_lines(rest, p);
    if lines.len() <= 1 {
        assert(rest.len() == 0);
        assert(rest.filter(p).len() == 0) by {
            reveal_with_fuel(Seq::filter, 1);
        }
    }
    let rows = rest.filter(p);
    assert forall|k: int| 0 <= k < rows.len() implies {
        let cols = split(rows[k], seq!['|', '|', '|']);
        let item = #[trigger] listing_items(output)[k];
        &&& item.entry.path == cols[5]
        &&& (item.entry.file_type == FsEntryType::Directory <==> cols[0][0] == 'd')
        &&& (item.entry.file_type == FsEntryType::File <==> cols[0][0] != 'd')
        &&& (item.entry.is_link <==> cols[0][0] == 'l')
        &&& item.link_probe == (if cols[0][0] == 'l' && cols.len() >= 8 {
            Some("unset LANG; find -L \"$(readlink -f "@ + cols[5] + ")\" -printf '%y'"@)
        } else {
            None
        })
    } by {
        assert(line_item(rows[k]) == Some(listing_items(output)[k]));
        assert(line_columns(rows[k]) == split(rows[k], seq!['|', '|', '|']));
    }
}

/// The listing command is a fixed text around the directory, which stands
/// verbatim, nothing added or taken, between `cd '` and `'; pwd`.
pub proof fn law_list_command_embeds_dir(dir: Seq<char>)
    ensures
        list_command(dir) == "unset LANG; find \"$(cd '"@ + dir
            + "'; pwd)\" -printf '%M|||%u|||%g|||%s|||%Ts|||%p|||%f|||%l\n'"@,
        list_command(dir).len() == list_command(Seq::empty()).len() + dir.len(),
{
    let a = "unset LANG; find \"$(cd '"@;
    let b = "'; pwd)\" -printf '%M|||%u|||%g|||%s|||%Ts|||%p|||%f|||%l\n'"@;
    assert(list_command(Seq::empty()) == a + Seq::<char>::empty() + b);
    assert(a + Seq::<char>::empty() =~= a);
}

/// The probe command is a fixed text around the link's path, which stands verbatim.
pub proof fn law_link_probe_embeds_path(path: Seq<char>)
    ensures
        link_probe_command(path) == "unset LANG; find -L \"$(readlink -f "@ + path
            + ")\" -printf '%y'"@,
{
}

/// A probe reports failure exactly when its output holds the five characters
/// `f`, `i`, `n`, `d`, `:` in a row.
pub proof fn law_probe_failure_marker(out: Seq<char>)
    ensures
        (exists|i: int| occurs_at(out, find_error_marker(), i)) <==> exists|i: int|
            0 <= i && i + 5 <= out.len() && out[i] == 'f' && out[i + 1] == 'i' && out[i + 2]
                == 'n' && out[i + 3] == 'd' && #[trigger] out[i + 4] == ':',
{
    if exists|i: int| occurs_at(out, find_error_marker(), i) {
        let i = choose|i: int| occurs_at(out, find_error_marker(), i);
        let w = out.subrange(i, i + 5);
        assert(w[0] == 'f' && w[1] == 'i' && w[2] == 'n' && w[3] == 'd' && w[4] == ':');
        assert(out[i] == w[0] && out[i + 1] == w[1] && out[i + 2] == w[2] && out[i + 3] == w[3]);
        assert(out[i + 4] == ':');
    }
    if exists|i: int|
        0 <= i && i + 5 <= out.len() && out[i] == 'f' && out[i + 1] == 'i' && out[i + 2] == 'n'
            && out[i + 3] == 'd' && #[trigger] out[i + 4] == ':' {
        let i = choose|i: int|
            0 <= i && i + 5 <= out.len() && out[i] == 'f' && out[i + 1] == 'i' && out[i + 2]
                == 'n' && out[i + 3] == 'd' && #[trigger] out[i + 4] == ':';
        assert(out.subrange(i, i + 5) =~= find_error_marker());
        assert(occurs_at(out, find_error_marker(), i));
    }
}

} // verus!
