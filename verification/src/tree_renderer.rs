use vstd::prelude::*;
use crate::crawler::{dir_size, dirs_size, Directory, File};
use crate::text::{push_char, push_repeated, repeat_seq};
use crate::units::{bytes_text, decimal_value, format_bytes, is_digit, law_decimal_reads_back};

verus! {

/// The indentation of a line at `depth`: four spaces per level.
pub open spec fn indent(depth: nat) -> Seq<char> {
    repeat_seq("    "@, depth)
}

/// The size shown after a name: ` (123B)` when sizes are shown, else nothing.
pub open spec fn size_suffix(show_sizes: bool, bytes: nat) -> Seq<char> {
    if show_sizes {
        " ("@ + bytes_text(bytes as u64) + ")"@
    } else {
        Seq::empty()
    }
}

/// The lines of some files of a directory whose own line is indented by `ind`.
pub open spec fn file_lines(files: Seq<File>, ind: Seq<char>, show_sizes: bool) -> Seq<char>
    decreases files.len(),
{
    if files.len() == 0 {
        Seq::empty()
    } else {
        file_lines(files.drop_last(), ind, show_sizes) + ind + "    ├── "@ + files.last().name@
            + size_suffix(show_sizes, files.last().size as nat) + seq!['\n']
    }
}

/// How many levels of subdirectories lie below a directory.
pub open spec fn dir_height(d: Directory) -> nat
    decreases d, 1nat,
{
    dirs_height(d.subdirectories@)
}

/// How many levels of directories lie in and below some directories.
pub open spec fn dirs_height(ds: Seq<Directory>) -> nat
    decreases ds, 0nat,
{
    if ds.len() == 0 {
        0
    } else {
        let a = dirs_height(ds.drop_last());
        let b = 1 + dir_height(ds.last());
        if a >= b {
            a
        } else {
            b
        }
    }
}

/// The rendering of a directory at `depth`: its line (indented name, `/`,
/// and its total size if shown), then a line for each of its files, then
/// the rendering of each subdirectory one level deeper.
pub open spec fn render_dir(d: Directory, depth: nat, show_sizes: bool) -> Seq<char>
    decreases d, 1nat,
{
    indent(depth) + d.name@ + seq!['/'] + size_suffix(show_sizes, dir_size(d)) + seq!['\n']
        + file_lines(d.files@, indent(depth), show_sizes) + render_dirs(
        d.subdirectories@,
        depth + 1,
        show_sizes,
    )
}

/// The renderings of some directories at `depth`, one after the other.
pub open spec fn render_dirs(ds: Seq<Directory>, depth: nat, show_sizes: bool) -> Seq<char>
    decreases ds, 0nat,
{
    if ds.len() == 0 {
        Seq::empty()
    } else {
        render_dirs(ds.drop_last(), depth, show_sizes) + render_dir(ds.last(), depth, show_sizes)
    }
}

proof fn lemma_dirs_size_each(ds: Seq<Directory>, i: int)
    requires
        0 <= i < ds.len(),
    ensures
        dir_size(ds[i]) <= dirs_size(ds),
    decreases ds.len(),
{
    if i < ds.len() - 1 {
        lemma_dirs_size_each(ds.drop_last(), i);
        assert(ds.drop_last()[i] == ds[i]);
    }
}

proof fn lemma_dirs_height_each(ds: Seq<Directory>, i: int)
    requires
        0 <= i < ds.len(),
    ensures
        1 + dir_height(ds[i]) <= dirs_height(ds),
    decreases ds.len(),
{
    if i < ds.len() - 1 {
        lemma_dirs_height_each(ds.drop_last(), i);
        assert(ds.drop_last()[i] == ds[i]);
    }
}

fn push_size_suffix(output: &mut String, bytes: u64)
    ensures
        final(output)@ == old(output)@ + size_suffix(true, bytes as nat),
{
    output.append(" (");
    let s = format_bytes(bytes);
    output.append(s.as_str());
    output.append(")");
}

/// Renders `directory` as an indented tree, starting at depth 0; with
/// `show_sizes`, each line ends with the size of the directory or file.
pub fn render_directory_tree(directory: &Directory, show_sizes: bool) -> (s: String)
    requires
        show_sizes ==> dir_size(*directory) <= u64::MAX,
        4 * dir_height(*directory) <= usize::MAX,
    ensures
        s@ == render_dir(*directory, 0, show_sizes),
{
    let mut output = String::new();
    render_directory_recursive(directory, 0, &mut output, show_sizes);
    proof {
        assert(output@ =~= render_dir(*directory, 0, show_sizes));
    }
    output
}

/// Appends the rendering of `directory` at `depth` to `output`.
pub fn render_directory_recursive(
    directory: &Directory,
    depth: usize,
    output: &mut String,
    show_sizes: bool,
)
    requires
        show_sizes ==> dir_size(*directory) <= u64::MAX,
        4 * (depth + dir_height(*directory)) <= usize::MAX,
    ensures
        final(output)@ == old(output)@ + render_dir(*directory, depth as nat, show_sizes),
    decreases directory,
{
    let mut ind = String::new();
    push_repeated(&mut ind, "    ", depth);
    proof {
        assert(ind@ == indent(depth as nat));
    }
    output.append(ind.as_str());
    output.append(directory.name.as_str());
    push_char(output, '/');
    if show_sizes {
        push_size_suffix(output, directory.total_size());
    }
    push_char(output, '\n');
    let ghost header = indent(depth as nat) + directory.name@ + seq!['/'] + size_suffix(
        show_sizes,
        dir_size(*directory),
    ) + seq!['\n'];
    proof {
        assert(output@ =~= old(output)@ + header);
    }
    let files = &directory.files;
    let mut i: usize = 0;
    proof {
        assert(files@.take(0) =~= Seq::<File>::empty());
    }
    while i < files.len()
        invariant
            i <= files@.len(),
            files == &directory.files,
            ind@ == indent(depth as nat),
            output@ == old(output)@ + header + file_lines(files@.take(i as int), ind@, show_sizes),
        decreases files@.len() - i,
    {
        let ghost before = output@;
        let f = &files[i];
        output.append(ind.as_str());
        output.append("    ├── ");
        output.append(f.name.as_str());
        if show_sizes {
            push_size_suffix(output, f.size);
        }
        push_char(output, '\n');
        proof {
            assert(files@.take(i + 1).drop_last() =~= files@.take(i as int));
            assert(output@ =~= before + ind@ + "    ├── "@ + f.name@ + size_suffix(
                show_sizes,
                f.size as nat,
            ) + seq!['\n']);
        }
        i = i + 1;
    }
    proof {
        assert(files@.take(files@.len() as int) =~= files@);
    }
    let ghost after_files = output@;
    let subs = &directory.subdirectories;
    let mut j: usize = 0;
    proof {
        assert(subs@.take(0) =~= Seq::<Directory>::empty());
        assert(after_files =~= after_files + render_dirs(subs@.take(0), (depth + 1) as nat, show_sizes));
    }
    while j < subs.len()
        invariant
            j <= subs@.len(),
            subs == &directory.subdirectories,
            show_sizes ==> dir_size(*directory) <= u64::MAX,
            4 * (depth + dir_height(*directory)) <= usize::MAX,
            output@ == after_files + render_dirs(subs@.take(j as int), (depth + 1) as nat, show_sizes),
        decreases subs@.len() - j,
    {
        proof {
            lemma_dirs_size_each(subs@, j as int);
            lemma_dirs_height_each(subs@, j as int);
            assert(subs@.take(j + 1).drop_last() =~= subs@.take(j as int));
        }
        render_directory_recursive(&subs[j], depth + 1, output, show_sizes);
        proof {
            assert(output@ =~= after_files + render_dirs(subs@.take(j + 1), (depth + 1) as nat, show_sizes));
        }
        j = j + 1;
    }
    proof {
        assert(subs@.take(subs@.len() as int) =~= subs@);
        assert(output@ =~= old(output)@ + render_dir(*directory, depth as nat, show_sizes));
    }
}

/// The lines of a rendering, each as its text before any size and the size
/// that a sized rendering shows after it: the directory's line, the lines of
/// its files, then the lines of its subdirectories one level deeper.
pub open spec fn dir_rows(d: Directory, depth: nat) -> Seq<(Seq<char>, nat)>
    decreases d, 1nat,
{
    seq![(indent(depth) + d.name@ + seq!['/'], dir_size(d))] + file_rows(d.files@, indent(depth))
        + dirs_rows(d.subdirectories@, depth + 1)
}

/// The lines of some files of a directory whose line is indented by `ind`.
pub open spec fn file_rows(files: Seq<File>, ind: Seq<char>) -> Seq<(Seq<char>, nat)>
    decreases files.len(),
{
    if files.len() == 0 {
        Seq::empty()
    } else {
        file_rows(files.drop_last(), ind).push(
            (ind + "    ├── "@ + files.last().name@, files.last().size as nat),
        )
    }
}

/// The lines of some directories at `depth`, one after the other.
pub open spec fn dirs_rows(ds: Seq<Directory>, depth: nat) -> Seq<(Seq<char>, nat)>
    decreases ds, 0nat,
{
    if ds.len() == 0 {
        Seq::empty()
    } else {
        dirs_rows(ds.drop_last(), depth) + dir_rows(ds.last(), depth)
    }
}

/// The text of some lines: each line, its size if sizes are shown, and a line break.
pub open spec fn text_of(rows: Seq<(Seq<char>, nat)>, show_sizes: bool) -> Seq<char>
    decreases rows.len(),
{
    if rows.len() == 0 {
        Seq::empty()
    } else {
        text_of(rows.drop_last(), show_sizes) + rows.last().0 + size_suffix(show_sizes, rows.last().1)
            + seq!['\n']
    }
}

/// The lines `rows`, each with `prefix` put before it.
pub open spec fn shifted(rows: Seq<(Seq<char>, nat)>, prefix: Seq<char>) -> Seq<(Seq<char>, nat)> {
    rows.map_values(|r: (Seq<char>, nat)| (prefix + r.0, r.1))
}

proof fn lemma_text_of_concat(a: Seq<(Seq<char>, nat)>, b: Seq<(Seq<char>, nat)>, show: bool)
    ensures
        text_of(a + b, show) == text_of(a, show) + text_of(b, show),
    decreases b.len(),
{
    if b.len() == 0 {
        assert(a + b =~= a);
    } else {
        lemma_text_of_concat(a, b.drop_last(), show);
        assert((a + b).drop_last() =~= a + b.drop_last());
        assert((a + b).last() == b.last());
    }
}

proof fn lemma_file_lines_text(files: Seq<File>, ind: Seq<char>, show: bool)
    ensures
        file_lines(files, ind, show) == text_of(file_rows(files, ind), show),
    decreases files.len(),
{
    if files.len() > 0 {
        lemma_file_lines_text(files.drop_last(), ind, show);
        let r = file_rows(files, ind);
        assert(r.drop_last() =~= file_rows(files.drop_last(), ind));
        assert(file_lines(files, ind, show) =~= text_of(r, show));
    }
}

proof fn lemma_render_dir_text(d: Directory, depth: nat, show: bool)
    ensures
        render_dir(d, depth, show) == text_of(dir_rows(d, depth), show),
    decreases d, 1nat,
{
    let head = seq![(indent(depth) + d.name@ + seq!['/'], dir_size(d))];
    let fr = file_rows(d.files@, indent(depth));
    let dr = dirs_rows(d.subdirectories@, depth + 1);
    lemma_file_lines_text(d.files@, indent(depth), show);
    lemma_render_dirs_text(d.subdirectories@, depth + 1, show);
    lemma_text_of_concat(head + fr, dr, show);
    lemma_text_of_concat(head, fr, show);
    assert(head.drop_last() =~= Seq::<(Seq<char>, nat)>::empty());
    assert(text_of(head.drop_last(), show) == Seq::<char>::empty());
    assert(head.last() == (indent(depth) + d.name@ + seq!['/'], dir_size(d)));
    assert(text_of(head, show) =~= indent(depth) + d.name@ + seq!['/'] + size_suffix(show, dir_size(d))
        + seq!['\n']);
    assert(render_dir(d, depth, show) =~= text_of(dir_rows(d, depth), show));
}

proof fn lemma_render_dirs_text(ds: Seq<Directory>, depth: nat, show: bool)
    ensures
        render_dirs(ds, depth, show) == text_of(dirs_rows(ds, depth), show),
    decreases ds, 0nat,
{
    if ds.len() > 0 {
        lemma_render_dirs_text(ds.drop_last(), depth, show);
        lemma_render_dir_text(ds.last(), depth, show);
        lemma_text_of_concat(dirs_rows(ds.drop_last(), depth), dir_rows(ds.last(), depth), show);
    }
}

/// A rendering is the text of its lines: with sizes shown, each line is the
/// same as without, followed by ` (` the size of its directory or file `)`.
pub proof fn law_render_is_its_lines(d: Directory, depth: nat, show_sizes: bool)
    ensures
        render_dir(d, depth, show_sizes) == text_of(dir_rows(d, depth), show_sizes),
{
    lemma_render_dir_text(d, depth, show_sizes);
}

proof fn lemma_repeat_add(unit: Seq<char>, a: nat, b: nat)
    ensures
        repeat_seq(unit, a + b) == repeat_seq(unit, a) + repeat_seq(unit, b),
    decreases b,
{
    if b == 0 {
        assert(repeat_seq(unit, a) + repeat_seq(unit, 0) =~= repeat_seq(unit, a));
    } else {
        lemma_repeat_add(unit, a, (b - 1) as nat);
        assert(repeat_seq(unit, a + b) == repeat_seq(unit, (a + (b - 1)) as nat) + unit) by {
            assert((a + b - 1) as nat == (a + (b - 1)) as nat);
        }
        assert(repeat_seq(unit, a) + repeat_seq(unit, b) =~= repeat_seq(unit, a) + repeat_seq(
            unit,
            (b - 1) as nat,
        ) + unit);
    }
}

proof fn lemma_shift_concat(a: Seq<(Seq<char>, nat)>, b: Seq<(Seq<char>, nat)>, p: Seq<char>)
    ensures
        shifted(a + b, p) == shifted(a, p) + shifted(b, p),
{
    assert(shifted(a + b, p) =~= shifted(a, p) + shifted(b, p));
}

proof fn lemma_file_rows_shift(files: Seq<File>, p: Seq<char>, q: Seq<char>)
    ensures
        file_rows(files, p + q) == shifted(file_rows(files, q), p),
    decreases files.len(),
{
    if files.len() > 0 {
        lemma_file_rows_shift(files.drop_last(), p, q);
        let f = files.last();
        assert(p + q + "    ├── "@ + f.name@ =~= p + (q + "    ├── "@ + f.name@));
        assert(file_rows(files, p + q) =~= shifted(file_rows(files, q), p));
    }
}

proof fn lemma_dir_rows_shift(d: Directory, a: nat, b: nat)
    ensures
        dir_rows(d, a + b) == shifted(dir_rows(d, b), indent(a)),
    decreases d, 1nat,
{
    let p = indent(a);
    lemma_repeat_add("    "@, a, b);
    lemma_file_rows_shift(d.files@, p, indent(b));
    lemma_dirs_rows_shift(d.subdirectories@, a, b + 1);
    let head_b = seq![(indent(b) + d.name@ + seq!['/'], dir_size(d))];
    let head_ab = seq![(indent(a + b) + d.name@ + seq!['/'], dir_size(d))];
    assert(indent(a + b) + d.name@ + seq!['/'] =~= p + (indent(b) + d.name@ + seq!['/']));
    assert(shifted(head_b, p) =~= head_ab);
    lemma_shift_concat(head_b, file_rows(d.files@, indent(b)), p);
    lemma_shift_concat(head_b + file_rows(d.files@, indent(b)), dirs_rows(d.subdirectories@, b + 1), p);
    assert(a + b + 1 == a + (b + 1));
}

proof fn lemma_dirs_rows_shift(ds: Seq<Directory>, a: nat, b: nat)
    ensures
        dirs_rows(ds, a + b) == shifted(dirs_rows(ds, b), indent(a)),
    decreases ds, 0nat,
{
    if ds.len() == 0 {
        assert(shifted(Seq::<(Seq<char>, nat)>::empty(), indent(a)) =~= Seq::<(Seq<char>, nat)>::empty());
    } else {
        lemma_dirs_rows_shift(ds.drop_last(), a, b);
        lemma_dir_rows_shift(ds.last(), a, b);
        lemma_shift_concat(dirs_rows(ds.drop_last(), b), dir_rows(ds.last(), b), indent(a));
    }
}

/// The rendering of a directory at `depth` has the lines of its rendering at
/// depth 0, each indented by `depth` levels.
pub proof fn law_render_depth_indents_lines(d: Directory, depth: nat)
    ensures
        dir_rows(d, depth) == shifted(dir_rows(d, 0), indent(depth)),
{
    lemma_dir_rows_shift(d, depth, 0);
}

/// With sizes shown, what follows a name is ` (`, a run of decimal digits
/// and `B)`, and the digits, with no leading zero, read back as the full
/// size, for every size a `u64` holds; without sizes nothing follows.
pub proof fn law_size_suffix_shows_full_size(n: nat)
    requires
        n <= u64::MAX,
    ensures
        ({
            let t = size_suffix(true, n);
            let digits = t.subrange(2, t.len() - 2);
            &&& t.len() >= 5
            &&& t.subrange(0, 2) == seq![' ', '(']
            &&& t.subrange(t.len() - 2, t.len() as int) == seq!['B', ')']
            &&& forall|k: int| 0 <= k < digits.len() ==> is_digit(#[trigger] digits[k])
            &&& (digits[0] != '0' || n == 0)
            &&& decimal_value(digits) == n
        }),
        size_suffix(false, n).len() == 0,
{
    reveal_strlit(" (");
    reveal_strlit(")");
    law_decimal_reads_back(n);
    let dec = crate::units::decimal(n);
    let t = size_suffix(true, n);
    assert(t =~= seq![' ', '('] + dec + seq!['B', ')']);
    let digits = t.subrange(2, t.len() - 2);
    assert(digits =~= dec);
    assert(t.subrange(0, 2) =~= seq![' ', '(']);
    assert(t.subrange(t.len() - 2, t.len() as int) =~= seq!['B', ')']);
}

} // verus!
