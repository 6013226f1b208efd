//! How a file's size, permissions, owner and time of change read.

use vstd::prelude::*;
use vstd::arithmetic::div_mod::{lemma_div_denominator, lemma_fundamental_div_mod_converse};
use vstd::arithmetic::power::{lemma_pow0, lemma_pow_positive, pow};
use vstd::string::StringExecFns;
use chrono::TimeZone;
use crate::fail::{FileError, HError, HResult};
use crate::file::{File, FileView, Kind};
use crate::fscache::{CacheView, FsCache};
use crate::jobs::meta_of;
use crate::pathname::{lossy_text, text_lossy};
use crate::text::{digits, digits_of, digits_stand_for_the_number, number_in, octal_as_decimal,
    octal_digits_stand_for_the_number, octal_to_decimal};

verus! {

/// How often a size can be divided by 1024 until no more than 1024 is left.
pub open spec fn unit_of(size: nat) -> nat
    decreases size,
{
    if size <= 1024 {
        0
    } else {
        1 + unit_of(size / 1024)
    }
}

/// What is left of a size then.
pub open spec fn in_unit(size: nat) -> nat
    decreases size,
{
    if size <= 1024 {
        size
    } else {
        in_unit(size / 1024)
    }
}

/// What is written behind a size in a unit.
pub open spec fn unit_text(unit: nat) -> Seq<char> {
    if unit == 1 {
        " KB"@
    } else if unit == 2 {
        " MB"@
    } else if unit == 3 {
        " GB"@
    } else if unit == 4 {
        " TB"@
    } else if unit == 5 {
        " wtf are you doing"@
    } else {
        ""@
    }
}

/// The size of a file and its unit: of a directory the number of its entries,
/// of anything else the bytes.
pub open spec fn size_of(file: FileView, cache: CacheView) -> Option<(nat, Seq<char>)> {
    if file.kind == Kind::Directory {
        match file.dirsize {
            Some(slot) => if cache.dirsize_at(slot).ready {
                Some((cache.dirsize_at(slot).size as nat, ""@))
            } else {
                None
            },
            None => Some((0, ""@)),
        }
    } else {
        match meta_of(file, cache) {
            Some(meta) => Some(
                (in_unit(meta.size as nat), unit_text(unit_of(meta.size as nat))),
            ),
            None => None,
        }
    }
}

/// The colours in which permissions and owners are written, as the terminal
/// takes them.
#[derive(Debug)]
pub struct Palette {
    pub green: String,
    pub yellow: String,
    pub red: String,
    pub highlight: String,
}

/// What the system says of the names of users and groups, as bytes; nothing
/// where it knows none.
#[derive(Debug)]
pub struct Names {
    pub current_user: Option<Vec<u8>>,
    pub current_group: Option<Vec<u8>>,
    pub file_user: Option<Vec<u8>>,
    pub file_group: Option<Vec<u8>>,
}

impl Palette {
    pub open spec fn read(self) -> Seq<char> {
        self.green@ + "r"@
    }

    pub open spec fn write(self) -> Seq<char> {
        self.yellow@ + "w"@
    }

    pub open spec fn execute(self) -> Seq<char> {
        self.red@ + "x"@
    }

    pub open spec fn nothing(self) -> Seq<char> {
        self.highlight@ + "-"@
    }

    /// Three permissions, from the octal digit that holds them.
    pub open spec fn triplet(self, digit: int) -> Seq<char> {
        if digit == 1 {
            self.nothing() + self.nothing() + self.execute()
        } else if digit == 2 {
            self.nothing() + self.write() + self.nothing()
        } else if digit == 3 {
            self.nothing() + self.write() + self.execute()
        } else if digit == 4 {
            self.read() + self.nothing() + self.nothing()
        } else if digit == 5 {
            self.read() + self.nothing() + self.execute()
        } else if digit == 6 {
            self.read() + self.write() + self.nothing()
        } else if digit == 7 {
            self.read() + self.write() + self.execute()
        } else {
            "---"@
        }
    }

    /// The permissions that a sequence of octal digits holds.
    pub open spec fn triplets(self, all: Seq<int>) -> Seq<char>
        decreases all.len(),
    {
        if all.len() == 0 {
            seq![]
        } else {
            self.triplets(all.drop_last()) + self.triplet(all.last())
        }
    }

    /// One permission, or none.
    fn letter(&self, granted: bool, colour: &String, letter: &str) -> (res: String)
        ensures
            res@ == if granted {
                colour@ + letter@
            } else {
                self.nothing()
            },
    {
        if granted {
            colour.clone().concat(letter)
        } else {
            self.highlight.clone().concat("-")
        }
    }

    /// Three permissions, from the octal digit that holds them.
    pub(crate) fn triplet_text(&self, digit: u8) -> (res: String)
        ensures
            res@ == self.triplet(digit as int),
    {
        if digit == 0 || digit > 7 {
            return "---".to_owned();
        }
        let r = self.letter(digit >= 4, &self.green, "r");
        let w = self.letter(digit % 4 >= 2, &self.yellow, "w");
        let x = self.letter(digit % 2 == 1, &self.red, "x");
        r.concat(w.as_str()).concat(x.as_str())
    }
}

/// The octal digits of a file's mode, read as a decimal number, without what
/// that number has in multiples of 800.
pub open spec fn permission_number(mode: u32) -> nat {
    octal_as_decimal(mode as nat) % 800
}

/// Whether a mode lets a file be read by someone who is its owner, in its
/// group, or neither.
pub open spec fn readable_by(mode: u32, is_owner: bool, in_group: bool) -> bool {
    ||| is_owner && mode & 0o400 > 0
    ||| in_group && mode & 0o040 > 0
    ||| mode & 0o004 > 0
}

/// The text of bytes that may be missing.
pub open spec fn lossy_name(name: Option<Vec<u8>>) -> Option<Seq<char>> {
    match name {
        Some(bytes) => Some(lossy_text(bytes@)),
        None => None,
    }
}

/// The name of an owner, green if it is that of the current user or group,
/// and red if not.
pub open spec fn coloured_name(
    palette: Palette,
    owner: Option<Vec<u8>>,
    current: Option<Vec<u8>>,
) -> Option<Seq<char>> {
    match (owner, current) {
        (Some(owner), Some(current)) => Some(
            (if owner@ == current@ {
                palette.green@
            } else {
                palette.red@
            }) + lossy_text(owner@),
        ),
        _ => None,
    }
}

/// A point in time, by the second since 1970 and the distance of local time
/// from UTC in seconds, as `DateTime::format` writes it in a format.
pub uninterp spec fn time_text(mtime: i64, offset: i32, format: Seq<char>) -> Seq<char>;

/// The date and the time of day to the minute, as chrono writes formats.
pub const MINUTE_FORMAT: &'static str = "%F %R";

/// Calls `DateTime::format` of chrono on the point in time at an offset. The
/// bounds are the first and the last second that chrono knows, and the offsets
/// of a day that `FixedOffset` allows; chrono panics on some other formats.
#[verifier::external_body]
pub(crate) fn format_time(mtime: i64, offset: i32, format: &str) -> (res: String)
    requires
        format@ == MINUTE_FORMAT@,
        -8_334_601_228_800 <= mtime <= 8_210_266_876_799,
        -86_400 < offset < 86_400,
    ensures
        res@ == time_text(mtime, offset, format@),
{
    let zone = chrono::FixedOffset::east_opt(offset).unwrap();
    zone.timestamp_opt(mtime, 0).unwrap().format(format).to_string()
}

/// Whether two byte strings are equal.
fn same_bytes(a: &Vec<u8>, b: &Vec<u8>) -> (res: bool)
    ensures
        res == (a@ == b@),
{
    if a.len() != b.len() {
        return false;
    }
    for i in 0..a.len()
        invariant
            a@.len() == b@.len(),
            forall|j: int| 0 <= j < i ==> a@[j] == b@[j],
    {
        if a[i] != b[i] {
            return false;
        }
    }
    assert(a@ =~= b@);
    true
}

/// The name of an owner in its colour.
fn colour_name(
    palette: &Palette,
    owner: &Option<Vec<u8>>,
    current: &Option<Vec<u8>>,
) -> (res: Option<String>)
    ensures
        match res {
            Some(text) => coloured_name(*palette, *owner, *current) == Some(text@),
            None => coloured_name(*palette, *owner, *current) is None,
        },
{
    match (owner, current) {
        (Some(owner), Some(current)) => {
            let colour = if same_bytes(owner, current) {
                palette.green.clone()
            } else {
                palette.red.clone()
            };
            Some(colour.concat(text_lossy(owner.as_slice()).as_str()))
        },
        _ => None,
    }
}

impl File {
    /// The size of the file and its unit, if they are known already.
    pub fn calculate_size(&self, cache: &FsCache) -> (res: HResult<(usize, &'static str)>)
        ensures
            match res {
                Ok((size, unit)) => size_of(self@, cache@) == Some((size as nat, unit@)),
                Err(e) => e == HError::FileError(FileError::MetaPending) && size_of(
                    self@,
                    cache@,
                ) is None,
            },
    {
        if self.is_dir() {
            return match self.dirsize {
                Some(slot) => {
                    let dirsize = cache.dirsize_at(slot);
                    if dirsize.ready {
                        Ok((dirsize.size, ""))
                    } else {
                        Err(HError::FileError(FileError::MetaPending))
                    }
                },
                None => Ok((0, "")),
            };
        }
        let meta = match self.meta(cache) {
            Some(meta) => meta,
            None => return Err(HError::FileError(FileError::MetaPending)),
        };
        let mut size: u64 = meta.size;
        let mut unit: u8 = 0;
        while size > 1024
            invariant
                in_unit(meta.size as nat) == in_unit(size as nat),
                unit_of(meta.size as nat) == unit + unit_of(size as nat),
                unit == 0 || size <= u64::MAX / 1024,
                unit <= 1 || size <= u64::MAX / 1_048_576,
                unit <= 2 || size <= u64::MAX / 1_073_741_824,
                unit <= 3 || size <= u64::MAX / 1_099_511_627_776,
                unit <= 4 || size <= u64::MAX / 1_125_899_906_842_624,
                unit <= 5 || size <= 16,
                unit <= 6,
            decreases size,
        {
            size = size / 1024;
            unit = unit + 1;
        }
        let text = match unit {
            0 => "",
            1 => " KB",
            2 => " MB",
            3 => " GB",
            4 => " TB",
            5 => " wtf are you doing",
            _ => "",
        };
        Ok((size as usize, text))
    }

    /// The permissions of the file, from its mode: a letter and its colour for
    /// each one that is granted, a dash for each one that is not.
    pub fn pretty_print_permissions(&self, cache: &FsCache, palette: &Palette) -> (res: HResult<
        String,
    >)
        ensures
            match (meta_of(self@, cache@), res) {
                (Some(meta), Ok(text)) => text@ == palette.triplets(
                    digits(permission_number(meta.mode)),
                ),
                (None, Err(e)) => e == HError::NoneError,
                _ => false,
            },
    {
        let meta = match self.meta(cache) {
            Some(meta) => meta,
            None => return Err(HError::NoneError),
        };
        let perms: u64 = octal_to_decimal(meta.mode) % 800;
        let all = digits_of(perms);
        let ghost want = digits(perms as nat);
        let mut res = String::new();
        for i in 0..all.len()
            invariant
                all@.map_values(|d: u8| d as int) == want,
                res@ == palette.triplets(want.take(i as int)),
        {
            assert(want[i as int] == all@[i as int] as int);
            res.append(palette.triplet_text(all[i]).as_str());
            assert(want.take(i + 1).drop_last() =~= want.take(i as int));
        }
        assert(want.take(want.len() as int) =~= want);
        Ok(res)
    }

    /// Whether the current user may read the file.
    pub fn is_readable(&self, cache: &FsCache, names: &Names) -> (res: HResult<bool>)
        ensures
            match (
                meta_of(self@, cache@),
                lossy_name(names.current_user),
                lossy_name(names.current_group),
                lossy_name(names.file_user),
                lossy_name(names.file_group),
            ) {
                (Some(meta), Some(cur_user), Some(cur_group), Some(user), Some(group)) => res
                    == Ok::<bool, HError>(
                    readable_by(meta.mode, cur_user == user, cur_group == group),
                ),
                _ => res == Err::<bool, HError>(HError::NoneError),
            },
    {
        match (
            self.meta(cache),
            &names.current_user,
            &names.current_group,
            &names.file_user,
            &names.file_group,
        ) {
            (Some(meta), Some(cur_user), Some(cur_group), Some(user), Some(group)) => {
                let current_user = text_lossy(cur_user.as_slice());
                let current_group = text_lossy(cur_group.as_slice());
                let file_user = text_lossy(user.as_slice());
                let file_group = text_lossy(group.as_slice());
                let perms = meta.mode;

                let user_readable = perms & 0o400;
                let group_readable = perms & 0o040;
                let other_readable = perms & 0o004;

                if current_user == file_user && user_readable > 0 {
                    Ok(true)
                } else if current_group == file_group && group_readable > 0 {
                    Ok(true)
                } else if other_readable > 0 {
                    Ok(true)
                } else {
                    Ok(false)
                }
            },
            _ => Err(HError::NoneError),
        }
    }

    /// The owner of the file, green if it is the current user and red if not.
    pub fn pretty_user(&self, cache: &FsCache, names: &Names, palette: &Palette) -> (res: Option<
        String,
    >)
        ensures
            match res {
                Some(text) => meta_of(self@, cache@) is Some && coloured_name(
                    *palette,
                    names.file_user,
                    names.current_user,
                ) == Some(text@),
                None => meta_of(self@, cache@) is None || coloured_name(
                    *palette,
                    names.file_user,
                    names.current_user,
                ) is None,
            },
    {
        match self.meta(cache) {
            Some(_) => colour_name(palette, &names.file_user, &names.current_user),
            None => None,
        }
    }

    /// The group of the file, green if it is the current one and red if not.
    pub fn pretty_group(&self, cache: &FsCache, names: &Names, palette: &Palette) -> (res: Option<
        String,
    >)
        ensures
            match res {
                Some(text) => meta_of(self@, cache@) is Some && coloured_name(
                    *palette,
                    names.file_group,
                    names.current_group,
                ) == Some(text@),
                None => meta_of(self@, cache@) is None || coloured_name(
                    *palette,
                    names.file_group,
                    names.current_group,
                ) is None,
            },
    {
        match self.meta(cache) {
            Some(_) => colour_name(palette, &names.file_group, &names.current_group),
            None => None,
        }
    }

    /// The time of the last change, to the minute. `offset` is how many
    /// seconds local time was ahead of UTC then.
    pub fn pretty_mtime(&self, cache: &FsCache, offset: i32) -> (res: Option<String>)
        requires
            -86_400 < offset < 86_400,
            meta_of(self@, cache@) matches Some(meta) ==> -8_334_601_228_800 <= meta.mtime
                <= 8_210_266_876_799,
        ensures
            match (meta_of(self@, cache@), res) {
                (Some(meta), Some(text)) => text@ == time_text(
                    meta.mtime,
                    offset,
                    MINUTE_FORMAT@,
                ),
                (None, None) => true,
                _ => false,
            },
    {
        match self.meta(cache) {
            Some(meta) => Some(format_time(meta.mtime, offset, MINUTE_FORMAT)),
            None => None,
        }
    }

    /// The colour of the file, if its metadata is known. `foreground` is the
    /// colour that goes with its path and metadata, if there is one.
    pub fn get_color(&self, cache: &FsCache, foreground: Option<String>) -> (res: Option<String>)
        ensures
            res == if meta_of(self@, cache@) is Some {
                foreground
            } else {
                None
            },
    {
        match self.meta(cache) {
            Some(_) => foreground,
            None => None,
        }
    }
}

/// A size is given in the smallest unit in which it is at most 1024: it is the
/// whole number of times that the unit goes into it.
pub proof fn sizes_are_whole_units(size: nat)
    ensures
        in_unit(size) <= 1024,
        in_unit(size) == size as int / pow(1024, unit_of(size)),
        unit_of(size) > 0 ==> size as int / pow(1024, (unit_of(size) - 1) as nat) > 1024,
    decreases size,
{
    lemma_pow0(1024);
    if size > 1024 {
        let smaller = size / 1024;
        sizes_are_whole_units(smaller);
        let unit = unit_of(smaller);
        lemma_pow_positive(1024, unit);
        reveal(pow);
        assert(pow(1024, unit + 1) == 1024 * pow(1024, unit));
        lemma_div_denominator(size as int, 1024, pow(1024, unit));
        if unit > 0 {
            lemma_pow_positive(1024, (unit - 1) as nat);
            assert(pow(1024, unit) == 1024 * pow(1024, (unit - 1) as nat));
            lemma_div_denominator(size as int, 1024, pow(1024, (unit - 1) as nat));
        } else {
            assert(size as int / pow(1024, 0) == size);
        }
    }
}

/// Bytes have no unit. Each unit has its letter, and all that no letter stands
/// for is written without one.
pub proof fn units_have_their_letters(unit: nat)
    ensures
        unit_text(unit).len() == 3 <==> 1 <= unit <= 4,
        1 <= unit <= 4 ==> unit_text(unit)[0] == ' ' && unit_text(unit)[2] == 'B'
            && unit_text(unit)[1] == seq!['K', 'M', 'G', 'T'][unit - 1],
        unit == 5 ==> unit_text(unit) == " wtf are you doing"@,
        unit == 0 || unit > 5 ==> unit_text(unit).len() == 0,
{
    reveal_strlit("");
    reveal_strlit(" KB");
    reveal_strlit(" MB");
    reveal_strlit(" GB");
    reveal_strlit(" TB");
    reveal_strlit(" wtf are you doing");
}

/// The permissions that are printed are the last three octal digits of the
/// mode, unless its higher bits get in the way: the bit for the group's
/// identity and the sticky one, and the lowest bit of the kind of file.
pub proof fn printed_permissions_are_those_of_the_mode(mode: u32)
    requires
        (mode / 512) % 4 == 2 * ((mode / 4096) % 2),
    ensures
        permission_number(mode) == octal_as_decimal((mode % 512) as nat),
{
    let n = mode as nat;
    lemma_three_digits(n);
    lemma_octal_step(n / 512);
    lemma_octal_step(n / 4096);
    lemma_div_denominator(n as int, 512, 8);
    lemma_higher_digits_cancel(
        octal_as_decimal(n / 4096 / 8) as int,
        ((n / 4096) % 8) as int,
        ((n / 512) % 8) as int,
        octal_as_decimal(n % 512) as int,
    );
}

/// Digits in the thousands and above that make up a multiple of 800.
proof fn lemma_higher_digits_cancel(rest: int, kind: int, special: int, low: int)
    requires
        0 <= rest,
        0 <= kind,
        0 <= special,
        0 <= low < 800,
        special % 4 == 2 * (kind % 2),
    ensures
        (((rest * 10 + kind) * 10 + special) * 1000 + low) % 800 == low,
{
    let times = 125 * rest + 12 * kind + special + (2 * kind + special) / 4;
    assert((2 * kind + special) % 4 == 0);
    assert(((rest * 10 + kind) * 10 + special) * 1000 == 800 * times);
    lemma_fundamental_div_mod_converse(800 * times + low, 800, times, low);
}

/// The last octal digit of a number can be split off.
proof fn lemma_octal_step(n: nat)
    ensures
        octal_as_decimal(n) == octal_as_decimal(n / 8) * 10 + n % 8,
{
}

/// The last three octal digits of a number can be split off.
proof fn lemma_three_digits(n: nat)
    ensures
        octal_as_decimal(n) == octal_as_decimal(n / 512) * 1000 + ((n / 64) % 8) * 100 + ((n / 8)
            % 8) * 10 + n % 8,
        octal_as_decimal(n % 512) == ((n / 64) % 8) * 100 + ((n / 8) % 8) * 10 + n % 8,
{
    lemma_octal_step(n);
    lemma_octal_step(n / 8);
    lemma_octal_step(n / 64);
    lemma_div_denominator(n as int, 8, 8);
    lemma_div_denominator(n as int, 64, 8);
    let low = n % 512;
    lemma_octal_step(low);
    lemma_octal_step(low / 8);
    lemma_octal_step(low / 64);
    assert(low / 8 / 8 == low / 64);
    assert(low / 64 / 8 == 0);
    assert(low % 8 == n % 8);
    assert((low / 8) % 8 == (n / 8) % 8);
    assert(low / 64 == (n / 64) % 8);
}

/// Whoever may read a file as anyone may read it as its owner or in its group.
pub proof fn more_standing_never_forbids(mode: u32, is_owner: bool, in_group: bool)
    requires
        readable_by(mode, false, false),
    ensures
        readable_by(mode, is_owner, in_group),
{
}

/// The size of a directory is the number of its entries, once it has been
/// counted, and zero before anyone asked for it. The size of anything else is
/// known with its metadata: in the smallest unit in which it is at most 1024.
pub proof fn sizes_come_from_slots(file: FileView, cache: CacheView)
    ensures
        file.kind == Kind::Directory ==> match file.dirsize {
            Some(slot) => {
                &&& size_of(file, cache) is Some <==> cache.dirsize_at(slot).ready
                &&& size_of(file, cache) matches Some(size) ==> size.0 == cache.dirsize_at(slot).size
                    && size.1 == ""@
            },
            None => size_of(file, cache) == Some((0nat, ""@)),
        },
        file.kind != Kind::Directory ==> {
            &&& size_of(file, cache) is Some <==> meta_of(file, cache) is Some
            &&& meta_of(file, cache) matches Some(meta) ==> (size_of(file, cache) matches Some(size)
                && size.0 <= 1024 && size.0 == meta.size as int / pow(
                1024,
                unit_of(meta.size as nat),
            ) && size.1 == unit_text(unit_of(meta.size as nat)))
        },
{
    if file.kind != Kind::Directory {
        if let Some(meta) = meta_of(file, cache) {
            sizes_are_whole_units(meta.size as nat);
        }
    }
}

/// Metadata is found in the slot of a file, and only there.
pub proof fn metadata_is_found_in_its_slot(file: FileView, cache: CacheView)
    ensures
        file.meta is None ==> meta_of(file, cache) is None,
        file.meta matches Some(slot) ==> meta_of(file, cache) == if slot.0 < cache.metas.len() {
            cache.metas[slot.0 as int]
        } else {
            None
        },
{
}

/// Three permissions are written bit by bit, each with the colour of its letter,
/// or as a dash in its own; where none is granted, as three plain dashes.
pub proof fn permissions_are_written_bit_by_bit(palette: Palette, digit: int)
    requires
        0 <= digit < 8,
    ensures
        digit == 0 ==> palette.triplet(digit) == "---"@,
        digit > 0 ==> palette.triplet(digit) == (if (digit / 4) % 2 == 1 {
            palette.green@ + "r"@
        } else {
            palette.highlight@ + "-"@
        }) + (if (digit / 2) % 2 == 1 {
            palette.yellow@ + "w"@
        } else {
            palette.highlight@ + "-"@
        }) + (if digit % 2 == 1 {
            palette.red@ + "x"@
        } else {
            palette.highlight@ + "-"@
        }),
{
}

/// Permissions are written in groups of three, one group for each digit, in
/// order.
pub proof fn permissions_are_written_in_order(palette: Palette, all: Seq<int>, digit: int)
    ensures
        palette.triplets(Seq::empty()) == Seq::<char>::empty(),
        palette.triplets(all.push(digit)) == palette.triplets(all) + palette.triplet(digit),
{
    assert(all.push(digit).drop_last() =~= all);
}

/// The permissions of a file that its owner may use somehow are written for the
/// owner, the group and all others, in this order, unless the higher bits of the
/// mode get in the way.
pub proof fn owners_come_before_groups_and_others(palette: Palette, mode: u32)
    requires
        (mode / 512) % 4 == 2 * ((mode / 4096) % 2),
        (mode / 64) % 8 > 0,
    ensures
        palette.triplets(digits(permission_number(mode))) == palette.triplet(
            ((mode / 64) % 8) as int,
        ) + palette.triplet(((mode / 8) % 8) as int) + palette.triplet((mode % 8) as int),
{
    printed_permissions_are_those_of_the_mode(mode);
    lemma_three_digits(mode as nat);
    let (o, g, a) = (((mode / 64) % 8) as int, ((mode / 8) % 8) as int, (mode % 8) as int);
    let n = permission_number(mode);
    assert(n == o * 100 + g * 10 + a);
    reveal_with_fuel(digits, 3);
    assert(digits(n) =~= seq![o, g, a]);
    assert(seq![o, g, a].drop_last() =~= seq![o, g]);
    assert(seq![o, g].drop_last() =~= seq![o]);
    assert(seq![o].drop_last() =~= Seq::<int>::empty());
    reveal_with_fuel(Palette::triplets, 4);
    assert(palette.triplets(seq![o]) =~= palette.triplet(o));
}

/// What is printed of any mode are its octal digits, read as a decimal number
/// and taken modulo 800.
pub proof fn printed_permissions_come_from_octal_digits(mode: u32, all: Seq<int>)
    requires
        all == digits(octal_as_decimal(mode as nat)),
    ensures
        number_in(8, all) == mode,
        permission_number(mode) == number_in(10, all) % 800,
{
    octal_digits_stand_for_the_number(mode as nat);
    digits_stand_for_the_number(octal_as_decimal(mode as nat));
}

/// Reading is granted by one of three bits: that of the owner to the owner, that
/// of the group to who is in it, and that of all others to everyone.
pub proof fn three_bits_grant_reading(mode: u32, is_owner: bool, in_group: bool)
    ensures
        readable_by(mode, is_owner, in_group) <==> {
            ||| is_owner && (mode / 256) % 2 == 1
            ||| in_group && (mode / 32) % 2 == 1
            ||| (mode / 4) % 2 == 1
        },
{
    assert(mode & 0o400 > 0 <==> (mode / 256) % 2 == 1) by (bit_vector);
    assert(mode & 0o040 > 0 <==> (mode / 32) % 2 == 1) by (bit_vector);
    assert(mode & 0o004 > 0 <==> (mode / 4) % 2 == 1) by (bit_vector);
}

/// The name of an owner stands behind its colour, which is green exactly where
/// it is the name of the current user or group. Without either name there is
/// nothing to write.
pub proof fn current_owners_are_green(palette: Palette, owner: Option<Vec<u8>>, current: Option<Vec<u8>>)
    ensures
        coloured_name(palette, owner, current) is Some <==> owner is Some && current is Some,
        coloured_name(palette, owner, current) matches Some(text) ==> {
            &&& (owner->0)@ == (current->0)@ ==> text == palette.green@ + lossy_text((owner->0)@)
            &&& (owner->0)@ != (current->0)@ ==> text == palette.red@ + lossy_text((owner->0)@)
        },
{
}

} // verus!
