//! ROM file entries and the digest-column mask used when matching them.

use vstd::prelude::*;

verus! {

/// Mathematical view of a [`DataFile`]: every string as a sequence of
/// characters, absent fields as `None`.
pub struct DataFileV {
    pub name: Seq<char>,
    pub sha1: Option<Seq<char>>,
    pub md5: Option<Seq<char>>,
    pub crc: Option<Seq<char>>,
    pub size: Option<u64>,
    pub status: Option<Seq<char>>,
}

/// One ROM entry: a logical name, up to three content digests (hex strings),
/// an optional size and an optional dump status. Identity is by the digest
/// tuple plus size; the name is an alias that may differ between games.
#[derive(Debug)]
pub struct DataFile {
    pub name: String,
    pub sha1: Option<String>,
    pub md5: Option<String>,
    pub crc: Option<String>,
    pub size: Option<u64>,
    pub status: Option<String>,
}

pub open spec fn opt_str_view(o: Option<String>) -> Option<Seq<char>> {
    match o {
        Option::Some(s) => Option::Some(s@),
        Option::None => Option::None,
    }
}

impl View for DataFile {
    type V = DataFileV;

    open spec fn view(&self) -> DataFileV {
        DataFileV {
            name: self.name@,
            sha1: opt_str_view(self.sha1),
            md5: opt_str_view(self.md5),
            crc: opt_str_view(self.crc),
            size: self.size,
            status: opt_str_view(self.status),
        }
    }
}

/// Two entries denote the same ROM content: all three declared digests and
/// the size agree. This is the only deduplication key; names do not matter.
pub open spec fn same_rom(a: DataFileV, b: DataFileV) -> bool {
    a.sha1 == b.sha1 && a.md5 == b.md5 && a.crc == b.crc && a.size == b.size
}

/// Full equality of entries as they appear in search results: same ROM
/// content and the same local name.
pub open spec fn file_eq(a: DataFileV, b: DataFileV) -> bool {
    same_rom(a, b) && a.name == b.name
}

/// One digest column of a query against a stored entry. A column excluded
/// from the mask is ignored. A declared query digest must be declared and
/// equal on the stored side; an absent query digest matches anything.
pub open spec fn digest_col_matches(
    q: Option<Seq<char>>,
    s: Option<Seq<char>>,
    use_col: bool,
) -> bool {
    use_col ==> match q {
        Option::Some(d) => s == Option::Some(d),
        Option::None => true,
    }
}

/// A query entry matches a stored entry under a mask: every masked-in digest
/// the query declares agrees with the stored side, and a declared query size
/// agrees with the stored size.
pub open spec fn file_matches(q: DataFileV, s: DataFileV, checks: FileChecks) -> bool {
    &&& digest_col_matches(q.sha1, s.sha1, checks.has_sha1())
    &&& digest_col_matches(q.md5, s.md5, checks.has_md5())
    &&& digest_col_matches(q.crc, s.crc, checks.has_crc())
    &&& match q.size {
        Option::Some(n) => s.size == Option::Some(n),
        Option::None => true,
    }
}

/// An entry with the same content key as a stored one matches it under any
/// mask: every digest the query declares, the stored side declares equally.
pub proof fn lemma_same_rom_matches(a: DataFileV, b: DataFileV, checks: FileChecks)
    requires
        same_rom(a, b),
    ensures
        file_matches(a, b, checks),
{
}

pub(crate) fn string_eq(a: &String, b: &String) -> (r: bool)
    ensures
        r == (a@ == b@),
{
    *a == *b
}

pub(crate) fn opt_string_eq(a: &Option<String>, b: &Option<String>) -> (r: bool)
    ensures
        r == (opt_str_view(*a) == opt_str_view(*b)),
{
    match (a, b) {
        (Option::Some(x), Option::Some(y)) => *x == *y,
        (Option::None, Option::None) => true,
        _ => false,
    }
}

pub(crate) fn opt_string_clone(a: &Option<String>) -> (r: Option<String>)
    ensures
        r == *a,
{
    match a {
        Option::Some(x) => Option::Some(x.clone()),
        Option::None => Option::None,
    }
}

pub(crate) fn opt_u64_eq(a: &Option<u64>, b: &Option<u64>) -> (r: bool)
    ensures
        r == (*a == *b),
{
    match (a, b) {
        (Option::Some(x), Option::Some(y)) => *x == *y,
        (Option::None, Option::None) => true,
        _ => false,
    }
}

impl DataFile {
    /// A copy of this entry, field for field.
    pub fn duplicate(&self) -> (r: DataFile)
        ensures
            r == *self,
    {
        DataFile {
            name: self.name.clone(),
            sha1: opt_string_clone(&self.sha1),
            md5: opt_string_clone(&self.md5),
            crc: opt_string_clone(&self.crc),
            size: self.size,
            status: opt_string_clone(&self.status),
        }
    }

    /// A copy of this entry carrying a different local name.
    pub fn renamed(&self, name: String) -> (r: DataFile)
        ensures
            r.name == name,
            r.sha1 == self.sha1,
            r.md5 == self.md5,
            r.crc == self.crc,
            r.size == self.size,
            r.status == self.status,
    {
        DataFile {
            name,
            sha1: opt_string_clone(&self.sha1),
            md5: opt_string_clone(&self.md5),
            crc: opt_string_clone(&self.crc),
            size: self.size,
            status: opt_string_clone(&self.status),
        }
    }

    /// Whether the two entries carry the same content key (digests + size).
    pub fn same_rom_as(&self, other: &DataFile) -> (r: bool)
        ensures
            r == same_rom(self@, other@),
    {
        opt_string_eq(&self.sha1, &other.sha1) && opt_string_eq(&self.md5, &other.md5)
            && opt_string_eq(&self.crc, &other.crc) && opt_u64_eq(&self.size, &other.size)
    }

    /// Whether the two entries are equal as search-result items: same
    /// content key and same name.
    pub fn same_file(&self, other: &DataFile) -> (r: bool)
        ensures
            r == file_eq(self@, other@),
    {
        self.same_rom_as(other) && string_eq(&self.name, &other.name)
    }

    /// Whether this entry, read as a query, matches a stored entry under the
    /// given digest mask.
    pub fn matches(&self, stored: &DataFile, checks: FileChecks) -> (r: bool)
        ensures
            r == file_matches(self@, stored@, checks),
    {
        let sha1_ok = !checks.has_sha1_bit() || match &self.sha1 {
            Option::Some(d) => match &stored.sha1 {
                Option::Some(s) => string_eq(d, s),
                Option::None => false,
            },
            Option::None => true,
        };
        let md5_ok = !checks.has_md5_bit() || match &self.md5 {
            Option::Some(d) => match &stored.md5 {
                Option::Some(s) => string_eq(d, s),
                Option::None => false,
            },
            Option::None => true,
        };
        let crc_ok = !checks.has_crc_bit() || match &self.crc {
            Option::Some(d) => match &stored.crc {
                Option::Some(s) => string_eq(d, s),
                Option::None => false,
            },
            Option::None => true,
        };
        let size_ok = match self.size {
            Option::Some(n) => match stored.size {
                Option::Some(m) => n == m,
                Option::None => false,
            },
            Option::None => true,
        };
        sha1_ok && md5_ok && crc_ok && size_ok
    }
}

/// Mask of digest columns worth computing and comparing, one bit per column.
#[derive(Clone, Copy)]
pub struct FileChecks {
    pub bits: u8,
}

impl FileChecks {
    /// The SHA1 column's bit.
    pub open spec fn has_sha1(self) -> bool {
        self.bits & 1 != 0
    }

    /// The MD5 column's bit.
    pub open spec fn has_md5(self) -> bool {
        self.bits & 2 != 0
    }

    /// The CRC column's bit.
    pub open spec fn has_crc(self) -> bool {
        self.bits & 4 != 0
    }

    pub fn has_sha1_bit(&self) -> (r: bool)
        ensures
            r == self.has_sha1(),
    {
        self.bits & 1 != 0
    }

    pub fn has_md5_bit(&self) -> (r: bool)
        ensures
            r == self.has_md5(),
    {
        self.bits & 2 != 0
    }

    pub fn has_crc_bit(&self) -> (r: bool)
        ensures
            r == self.has_crc(),
    {
        self.bits & 4 != 0
    }

    /// Mask with every column selected, as contracts speak of it.
    pub open spec fn all_spec() -> FileChecks {
        FileChecks { bits: 7 }
    }

    /// Mask with every column selected.
    pub fn all() -> (r: FileChecks)
        ensures
            r == FileChecks::all_spec(),
            r.has_sha1(),
            r.has_md5(),
            r.has_crc(),
    {
        proof {
            assert(7u8 & 1 != 0 && 7u8 & 2 != 0 && 7u8 & 4 != 0) by (bit_vector);
        }
        FileChecks { bits: 7 }
    }

    /// Mask selecting only the SHA1 column.
    pub fn sha1() -> (r: FileChecks)
        ensures
            r.has_sha1(),
            !r.has_md5(),
            !r.has_crc(),
    {
        proof {
            assert(1u8 & 1 != 0 && 1u8 & 2 == 0 && 1u8 & 4 == 0) by (bit_vector);
        }
        FileChecks { bits: 1 }
    }

    /// Mask selecting only the MD5 column.
    pub fn md5() -> (r: FileChecks)
        ensures
            !r.has_sha1(),
            r.has_md5(),
            !r.has_crc(),
    {
        proof {
            assert(2u8 & 1 == 0 && 2u8 & 2 != 0 && 2u8 & 4 == 0) by (bit_vector);
        }
        FileChecks { bits: 2 }
    }

    /// Mask selecting only the CRC column.
    pub fn crc() -> (r: FileChecks)
        ensures
            !r.has_sha1(),
            !r.has_md5(),
            r.has_crc(),
    {
        proof {
            assert(4u8 & 1 == 0 && 4u8 & 2 == 0 && 4u8 & 4 != 0) by (bit_vector);
        }
        FileChecks { bits: 4 }
    }

    /// Mask built from one flag per column, as contracts speak of it.
    pub open spec fn from_flags_spec(sha1: bool, md5: bool, crc: bool) -> FileChecks {
        FileChecks {
            bits: (if sha1 {
                1u8
            } else {
                0u8
            }) | (if md5 {
                2u8
            } else {
                0u8
            }) | (if crc {
                4u8
            } else {
                0u8
            }),
        }
    }

    /// Mask built from one flag per column.
    pub fn from_flags(sha1: bool, md5: bool, crc: bool) -> (r: FileChecks)
        ensures
            r == FileChecks::from_flags_spec(sha1, md5, crc),
            r.has_sha1() == sha1,
            r.has_md5() == md5,
            r.has_crc() == crc,
    {
        let x: u8 = if sha1 {
            1
        } else {
            0
        };
        let y: u8 = if md5 {
            2
        } else {
            0
        };
        let z: u8 = if crc {
            4
        } else {
            0
        };
        let bits: u8 = x | y | z;
        proof {
            assert(((x | y | z) & 1 != 0) == (x == 1) && ((x | y | z) & 2 != 0) == (y == 2) && ((x
                | y | z) & 4 != 0) == (z == 4)) by (bit_vector)
                requires
                    x == 0 || x == 1,
                    y == 0 || y == 2,
                    z == 0 || z == 4,
            ;
        }
        FileChecks { bits }
    }

    /// Whether every column selected in `other` is selected here too.
    pub fn contains(&self, other: &FileChecks) -> (r: bool)
        ensures
            r == ((other.has_sha1() ==> self.has_sha1()) && (other.has_md5() ==> self.has_md5())
                && (other.has_crc() ==> self.has_crc())),
    {
        let s = self.bits;
        let o = other.bits;
        proof {
            assert((s & (o & 7) == o & 7) == (((o & 1 != 0) ==> (s & 1 != 0)) && ((o & 2 != 0) ==> (
            s & 2 != 0)) && ((o & 4 != 0) ==> (s & 4 != 0)))) by (bit_vector);
        }
        s & (o & 7) == o & 7
    }
}

/// Counts of content rows that declare each digest column, as scanned from
/// a finished index.
pub struct FileCheckSearch {
    pub sha1: u32,
    pub md5: u32,
    pub crc: u32,
}

impl FileCheckSearch {
    /// The digest mask a scanner should use against this dataset: a column's
    /// bit is set exactly when at least one content row declares it.
    pub fn get_file_checks(&self) -> (r: FileChecks)
        ensures
            r == FileChecks::from_flags_spec(self.sha1 > 0, self.md5 > 0, self.crc > 0),
            r.has_sha1() == (self.sha1 > 0),
            r.has_md5() == (self.md5 > 0),
            r.has_crc() == (self.crc > 0),
    {
        FileChecks::from_flags(self.sha1 > 0, self.md5 > 0, self.crc > 0)
    }
}

} // verus!
