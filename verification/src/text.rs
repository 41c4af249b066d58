//! A tree as text: a line for each file, and for each directory a header
//! line, the texts of its subdirectories and the lines of its files.

use vstd::prelude::*;
use vstd::string::{StrSliceExecFns, StringExecFns};
use crate::tree::{directory_views, file_views, Directory, DirectoryView, File, FileView};

verus! {

/// The digit `d` as text.
pub open spec fn digit(d: int) -> Seq<char> {
    "0123456789"@.subrange(d, d + 1)
}

/// `number` in decimal notation.
pub open spec fn decimal(number: nat) -> Seq<char>
    decreases number,
{
    if number < 10 {
        digit(number as int)
    } else {
        decimal(number / 10) + digit((number % 10) as int)
    }
}

/// `lines`, each followed by a line break.
pub open spec fn joined_lines(lines: Seq<Seq<char>>) -> Seq<char>
    decreases lines.len(),
{
    if lines.len() == 0 {
        Seq::empty()
    } else {
        joined_lines(lines.drop_last()) + lines.last() + "\n"@
    }
}

impl FileView {
    /// The line of a file: its name and its size.
    pub open spec fn text(self) -> Seq<char> {
        self.name + " "@ + decimal(self.size as nat)
    }
}

impl DirectoryView {
    /// The header line of a directory: its name and its size between rules.
    pub open spec fn header(self) -> Seq<char> {
        "----- "@ + self.name + " "@ + decimal(self.size as nat) + " ------\n"@
    }

    /// The texts of the subdirectories, one for one.
    pub open spec fn subdirectory_texts(self) -> Seq<Seq<char>>
        decreases self, 0int,
    {
        Seq::new(
            self.directories.len(),
            |i: int|
                if 0 <= i < self.directories.len() {
                    self.directories[i].text()
                } else {
                    Seq::empty()
                },
        )
    }

    /// The lines of the files, one for one.
    pub open spec fn file_lines(self) -> Seq<Seq<char>> {
        self.files.map_values(|f: FileView| f.text())
    }

    /// The text of a directory: its header, the texts of its subdirectories,
    /// an empty line and the lines of its files.
    pub open spec fn text(self) -> Seq<char>
        decreases self, 1int,
    {
        self.header() + joined_lines(self.subdirectory_texts()) + "\n"@ + joined_lines(
            self.file_lines(),
        )
    }
}

/// `number` in decimal notation.
pub fn decimal_text(number: u64) -> (text: String)
    ensures
        text@ == decimal(number as nat),
    decreases number,
{
    let digits = "0123456789";
    proof {
        reveal_strlit("0123456789");
    }
    if number < 10 {
        digits.substring_char(number as usize, number as usize + 1).to_string()
    } else {
        let last = (number % 10) as usize;
        decimal_text(number / 10).concat(digits.substring_char(last, last + 1))
    }
}

impl File {
    /// The line of this file: its name and its size.
    pub fn to_string(&self) -> (text: String)
        ensures
            text@ == self@.text(),
    {
        let size = decimal_text(self.get_size());
        String::from_str(self.get_name()).concat(" ").concat(size.as_str())
    }
}

impl Directory {
    /// The text of this directory and of everything beneath it.
    pub fn to_string(&self) -> (text: String)
        ensures
            text@ == self@.text(),
        decreases self@,
    {
        let size = decimal_text(self.get_size());
        let mut text = String::from_str("----- ").concat(self.get_name()).concat(" ").concat(
            size.as_str(),
        ).concat(" ------\n");
        let directories = self.get_subdirectories();
        let ghost lines = self@.subdirectory_texts();
        let mut i: usize = 0;
        assert(lines.take(0) =~= Seq::empty());
        while i < directories.len()
            invariant
                i <= directories@.len(),
                directory_views(directories@) == self@.directories,
                lines.len() == self@.directories.len(),
                forall|k: int| 0 <= k < lines.len() ==> lines[k] == self@.directories[k].text(),
                text@ == self@.header() + joined_lines(lines.take(i as int)),
            decreases directories@.len() - i,
        {
            assert(directories@[i as int]@ == self@.directories[i as int]);
            let line = directories[i].to_string();
            proof {
                assert(lines.take(i + 1).drop_last() =~= lines.take(i as int));
                assert(lines.take(i + 1).last() == line@);
                assert(self@.header() + joined_lines(lines.take(i as int)) + line@ + "\n"@
                    =~= self@.header() + (joined_lines(lines.take(i as int)) + line@ + "\n"@));
            }
            text.append(line.as_str());
            text.append("\n");
            i += 1;
        }
        assert(lines.take(i as int) =~= lines);
        text.append("\n");
        let files = self.get_files();
        let ghost file_lines = self@.file_lines();
        let ghost head = text@;
        let mut j: usize = 0;
        assert(file_lines.take(0) =~= Seq::empty());
        assert(head + Seq::<char>::empty() =~= head);
        while j < files.len()
            invariant
                j <= files@.len(),
                file_views(files@) == self@.files,
                file_lines == self@.file_lines(),
                text@ == head + joined_lines(file_lines.take(j as int)),
            decreases files@.len() - j,
        {
            assert(files@[j as int]@ == self@.files[j as int]);
            let line = files[j].to_string();
            proof {
                assert(file_lines.take(j + 1).drop_last() =~= file_lines.take(j as int));
                assert(file_lines.take(j + 1).last() == line@);
                assert(head + joined_lines(file_lines.take(j as int)) + line@ + "\n"@ =~= head + (
                joined_lines(file_lines.take(j as int)) + line@ + "\n"@));
            }
            text.append(line.as_str());
            text.append("\n");
            j += 1;
        }
        assert(file_lines.take(j as int) =~= file_lines);
        assert(head == self@.header() + joined_lines(lines) + "\n"@);
        assert(text@ == self@.header() + joined_lines(lines) + "\n"@ + joined_lines(file_lines));
        text
    }
}

} // verus!
