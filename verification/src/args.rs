//! Arguments of the programs.
use vstd::prelude::*;

use crate::text::{
    behind, comma_parts, law_join_round_trip, law_padded_round_trip, law_prefix_comes_off, number,
    padded, parse_number, same_text, split_commas, strip, with_commas,
};

verus! {

/// What is wrong with a list of numbers.
#[derive(Debug, Clone, Copy, PartialEq, Eq)]
pub enum NumsError {
    /// A part is no 32-bit number.
    BadValue,
    /// The list has the wrong length.
    WrongCount,
}

/// The numbers between the commas of `v`, if each part is one.
pub open spec fn comma_numbers(v: Seq<char>) -> Option<Seq<u32>> {
    let parts = comma_parts(v);
    if forall|i: int| 0 <= i < parts.len() ==> number(#[trigger] parts[i], 0xffffffff) is Some {
        Some(parts.map_values(|p: Seq<char>| number(p, 0xffffffff)->Some_0 as u32))
    } else {
        None
    }
}

/// The `n` numbers that follow `prefix` in `arg`; none where the prefix is
/// another.
pub open spec fn listed_numbers(arg: Seq<char>, prefix: Seq<char>, n: nat) -> Result<
    Option<Seq<u32>>,
    NumsError,
> {
    match behind(arg, prefix) {
        None => Ok(None),
        Some(v) => match comma_numbers(v) {
            None => Err(NumsError::BadValue),
            Some(nums) => if nums.len() == n {
                Ok(Some(nums))
            } else {
                Err(NumsError::WrongCount)
            },
        },
    }
}

/// Counterpart of a parsed list of numbers.
pub open spec fn nums_view(r: Result<Option<Vec<u32>>, NumsError>) -> Result<
    Option<Seq<u32>>,
    NumsError,
> {
    match r {
        Ok(Some(v)) => Ok(Some(v@)),
        Ok(None) => Ok(None),
        Err(e) => Err(e),
    }
}

/// Reads the `n` comma-separated numbers that follow `prefix` in `arg`; `None`
/// where `arg` begins otherwise.
pub fn parse_nums(arg: &str, prefix: &str, n: usize) -> (r: Result<Option<Vec<u32>>, NumsError>)
    ensures
        nums_view(r) == listed_numbers(arg@, prefix@, n as nat),
{
    match strip(arg, prefix) {
        None => Ok(None),
        Some(v) => {
            let parts: Vec<String> = split_commas(v);
            let ghost texts = comma_parts(v@);
            let mut nums: Vec<u32> = Vec::new();
            let mut i: usize = 0;
            while i < parts.len()
                invariant
                    i <= parts@.len(),
                    nums@.len() == i,
                    behind(arg@, prefix@) == Some(v@),
                    texts == comma_parts(v@),
                    parts@.map_values(|p: String| p@) == texts,
                    forall|j: int|
                        0 <= j < i ==> number(#[trigger] texts[j], 0xffffffff) == Some(
                            nums@[j] as nat,
                        ),
                decreases parts@.len() - i,
            {
                assert(texts[i as int] == parts@[i as int]@);
                match parse_number(parts[i].as_str(), 0xffffffff) {
                    None => {
                        assert(number(texts[i as int], 0xffffffff) is None);
                        assert(comma_numbers(v@) is None);
                        return Err(NumsError::BadValue);
                    },
                    Some(value) => {
                        nums.push(value as u32);
                    },
                }
                i = i + 1;
            }
            assert(texts.len() == parts@.len());
            assert(comma_numbers(v@) is Some);
            assert(nums@ =~= comma_numbers(v@)->Some_0);
            if nums.len() != n {
                return Err(NumsError::WrongCount);
            }
            Ok(Some(nums))
        },
    }
}

/// A list argument as it is written: the prefix and the decimal numbers, apart
/// by commas.
pub open spec fn list_argument(prefix: Seq<char>, nums: Seq<u32>) -> Seq<char> {
    prefix + with_commas(nums.map_values(|n: u32| padded(n as nat, 0)))
}

/// Numbers that are written out as a list argument are read back.
pub proof fn law_list_round_trip(prefix: Seq<char>, nums: Seq<u32>)
    requires
        nums.len() > 0,
    ensures
        listed_numbers(list_argument(prefix, nums), prefix, nums.len()) == Ok::<
            Option<Seq<u32>>,
            NumsError,
        >(Some(nums)),
{
    let parts = nums.map_values(|n: u32| padded(n as nat, 0));
    let arg = list_argument(prefix, nums);
    let v = with_commas(parts);
    assert(arg.take(prefix.len() as int) =~= prefix);
    assert(arg.skip(prefix.len() as int) =~= v);
    assert forall|i: int| 0 <= i < parts.len() implies !(#[trigger] parts[i]).contains(',')
        && number(parts[i], 0xffffffff) == Some(nums[i] as nat) by {
        law_padded_round_trip(nums[i] as nat, 0, 0xffffffff);
        assert(parts[i] == padded(nums[i] as nat, 0));
    }
    law_join_round_trip(parts);
    assert(comma_numbers(v) is Some);
    assert(comma_numbers(v)->Some_0 =~= nums);
}

/// A list argument.
#[derive(Debug, Clone, Copy, PartialEq, Eq)]
pub enum ListKind {
    Point,
    Roi,
}

/// What is wrong with the arguments; `at` counts the arguments from zero.
#[derive(Debug, Clone, Copy, PartialEq, Eq)]
pub enum ArgError {
    /// The number of frames is no number.
    BadFrames { at: usize },
    /// The list is no valid list of numbers.
    BadList { at: usize, kind: ListKind, error: NumsError },
    /// No such argument.
    Unknown { at: usize },
}

/// What the capture program is asked to do.
pub struct Options {
    /// Streaming frames to save.
    pub frames_wanted: usize,
    /// Directory for the frames.
    pub out_dir: String,
    /// Pixels to query, in display coordinates.
    pub points: Vec<(u32, u32)>,
    /// Rectangles to query, in display coordinates: position and size.
    pub rois: Vec<(u32, u32, u32, u32)>,
    /// File for the temperature matrix.
    pub temps_file: Option<String>,
}

/// Mathematical counterpart of [`Options`].
#[verifier::ext_equal]
pub struct OptionsView {
    pub frames_wanted: nat,
    pub out_dir: Seq<char>,
    pub points: Seq<(u32, u32)>,
    pub rois: Seq<(u32, u32, u32, u32)>,
    pub temps_file: Option<Seq<char>>,
}

impl View for Options {
    type V = OptionsView;

    open spec fn view(&self) -> OptionsView {
        OptionsView {
            frames_wanted: self.frames_wanted as nat,
            out_dir: self.out_dir@,
            points: self.points@,
            rois: self.rois@,
            temps_file: match self.temps_file {
                Some(f) => Some(f@),
                None => None,
            },
        }
    }
}

/// What is done without arguments: three frames into `captures`.
pub open spec fn default_options() -> OptionsView {
    OptionsView {
        frames_wanted: 3,
        out_dir: "captures"@,
        points: Seq::empty(),
        rois: Seq::empty(),
        temps_file: None,
    }
}

/// The options once one more argument was read.
pub open spec fn with_argument(o: OptionsView, arg: Seq<char>, at: nat) -> Result<
    OptionsView,
    ArgError,
> {
    if behind(arg, "frames="@) is Some {
        match number(behind(arg, "frames="@)->Some_0, usize::MAX as nat) {
            Some(n) => Ok(OptionsView { frames_wanted: n, ..o }),
            None => Err(ArgError::BadFrames { at: at as usize }),
        }
    } else if behind(arg, "out="@) is Some {
        Ok(OptionsView { out_dir: behind(arg, "out="@)->Some_0, ..o })
    } else if behind(arg, "temps="@) is Some {
        Ok(OptionsView { temps_file: behind(arg, "temps="@), ..o })
    } else {
        match listed_numbers(arg, "point="@, 2) {
            Err(error) => Err(ArgError::BadList { at: at as usize, kind: ListKind::Point, error }),
            Ok(Some(n)) => Ok(OptionsView { points: o.points.push((n[0], n[1])), ..o }),
            Ok(None) => match listed_numbers(arg, "roi="@, 4) {
                Err(error) => Err(
                    ArgError::BadList { at: at as usize, kind: ListKind::Roi, error },
                ),
                Ok(Some(n)) => Ok(
                    OptionsView { rois: o.rois.push((n[0], n[1], n[2], n[3])), ..o },
                ),
                Ok(None) => Err(ArgError::Unknown { at: at as usize }),
            },
        }
    }
}

/// The options that a series of arguments gives, or the first thing wrong with
/// them. A later argument overrides an earlier one; points and rectangles add
/// up.
pub open spec fn options(args: Seq<Seq<char>>) -> Result<OptionsView, ArgError>
    decreases args.len(),
{
    if args.len() == 0 {
        Ok(default_options())
    } else {
        match options(args.drop_last()) {
            Ok(o) => with_argument(o, args.last(), (args.len() - 1) as nat),
            Err(e) => Err(e),
        }
    }
}

/// Counterpart of parsed options.
pub open spec fn options_view(r: Result<Options, ArgError>) -> Result<OptionsView, ArgError> {
    match r {
        Ok(o) => Ok(o@),
        Err(e) => Err(e),
    }
}

impl Options {
    fn accept(&mut self, arg: &str, at: usize) -> (r: Result<(), ArgError>)
        ensures
            match r {
                Ok(_) => with_argument(old(self)@, arg@, at as nat) == Ok::<OptionsView, ArgError>(
                    final(self)@,
                ),
                Err(e) => with_argument(old(self)@, arg@, at as nat) == Err::<
                    OptionsView,
                    ArgError,
                >(e),
            },
    {
        if let Some(v) = strip(arg, "frames=") {
            match parse_number(v, usize::MAX as u64) {
                Some(n) => {
                    self.frames_wanted = n as usize;
                    return Ok(());
                },
                None => {
                    return Err(ArgError::BadFrames { at });
                },
            }
        }
        if let Some(v) = strip(arg, "out=") {
            self.out_dir = v.to_owned();
            return Ok(());
        }
        if let Some(v) = strip(arg, "temps=") {
            self.temps_file = Some(v.to_owned());
            return Ok(());
        }
        match parse_nums(arg, "point=", 2) {
            Err(error) => {
                return Err(ArgError::BadList { at, kind: ListKind::Point, error });
            },
            Ok(Some(n)) => {
                self.points.push((n[0], n[1]));
                return Ok(());
            },
            Ok(None) => {},
        }
        match parse_nums(arg, "roi=", 4) {
            Err(error) => Err(ArgError::BadList { at, kind: ListKind::Roi, error }),
            Ok(Some(n)) => {
                self.rois.push((n[0], n[1], n[2], n[3]));
                Ok(())
            },
            Ok(None) => Err(ArgError::Unknown { at }),
        }
    }

    /// Reads the arguments of the capture program.
    pub fn parse(args: &Vec<String>) -> (r: Result<Options, ArgError>)
        ensures
            options_view(r) == options(args@.map_values(|a: String| a@)),
    {
        let mut o = Options {
            frames_wanted: 3,
            out_dir: "captures".to_owned(),
            points: Vec::new(),
            rois: Vec::new(),
            temps_file: None,
        };
        let ghost texts = args@.map_values(|a: String| a@);
        assert(texts.take(0) =~= Seq::<Seq<char>>::empty());
        assert(o@ =~= default_options());
        let mut i: usize = 0;
        while i < args.len()
            invariant
                i <= args@.len(),
                texts == args@.map_values(|a: String| a@),
                options(texts.take(i as int)) == Ok::<OptionsView, ArgError>(o@),
            decreases args@.len() - i,
        {
            proof {
                assert(texts.take(i + 1).drop_last() =~= texts.take(i as int));
                assert(texts.take(i + 1).last() == args@[i as int]@);
            }
            match o.accept(args[i].as_str(), i) {
                Ok(_) => {},
                Err(e) => {
                    proof {
                        lemma_error_stays(texts, i + 1);
                    }
                    return Err(e);
                },
            }
            i = i + 1;
        }
        assert(texts.take(i as int) =~= texts);
        Ok(o)
    }

    /// Whether a radiometric capture is needed to answer.
    pub fn needs_radiometric(&self) -> (r: bool)
        ensures
            r == (self@.points.len() > 0 || self@.rois.len() > 0 || self@.temps_file is Some),
    {
        self.points.len() > 0 || self.rois.len() > 0 || self.temps_file.is_some()
    }
}

proof fn lemma_error_stays(args: Seq<Seq<char>>, k: int)
    requires
        0 <= k <= args.len(),
        options(args.take(k)) is Err,
    ensures
        options(args) == options(args.take(k)),
    decreases args.len(),
{
    if k == args.len() {
        assert(args.take(k) =~= args);
    } else {
        assert(args.drop_last().take(k) =~= args.take(k));
        lemma_error_stays(args.drop_last(), k);
    }
}

/// What is wrong with the arguments of the stream dump.
#[derive(Debug, Clone, Copy, PartialEq, Eq)]
pub enum DumpArgError {
    /// The number of arguments is wrong.
    Usage,
    BadFormat,
    BadFrame,
    BadInterval,
}

/// What the stream dump is asked to do.
pub struct DumpArgs {
    pub format: u8,
    pub frame: u8,
    /// Frame interval in units of 100 ns.
    pub interval: u32,
    pub mode: String,
    /// Begin of the file names.
    pub out: String,
}

/// Mathematical counterpart of [`DumpArgs`].
#[verifier::ext_equal]
pub struct DumpArgsView {
    pub format: nat,
    pub frame: nat,
    pub interval: nat,
    pub mode: Seq<char>,
    pub out: Seq<char>,
}

impl View for DumpArgs {
    type V = DumpArgsView;

    open spec fn view(&self) -> DumpArgsView {
        DumpArgsView {
            format: self.format as nat,
            frame: self.frame as nat,
            interval: self.interval as nat,
            mode: self.mode@,
            out: self.out@,
        }
    }
}

/// The meaning of the five arguments of the stream dump.
pub open spec fn dump_args(args: Seq<Seq<char>>) -> Result<DumpArgsView, DumpArgError> {
    if args.len() != 5 {
        Err(DumpArgError::Usage)
    } else {
        match (number(args[0], 255), number(args[1], 255), number(args[2], 0xffffffff)) {
            (None, _, _) => Err(DumpArgError::BadFormat),
            (_, None, _) => Err(DumpArgError::BadFrame),
            (_, _, None) => Err(DumpArgError::BadInterval),
            (Some(format), Some(frame), Some(interval)) => Ok(
                DumpArgsView { format, frame, interval, mode: args[3], out: args[4] },
            ),
        }
    }
}

impl DumpArgs {
    /// Reads the arguments of the stream dump.
    pub fn parse(args: &Vec<String>) -> (r: Result<DumpArgs, DumpArgError>)
        ensures
            match r {
                Ok(a) => dump_args(args@.map_values(|a: String| a@)) == Ok::<
                    DumpArgsView,
                    DumpArgError,
                >(a@),
                Err(e) => dump_args(args@.map_values(|a: String| a@)) == Err::<
                    DumpArgsView,
                    DumpArgError,
                >(e),
            },
    {
        if args.len() != 5 {
            return Err(DumpArgError::Usage);
        }
        let format: u8 = match parse_number(args[0].as_str(), 255) {
            Some(n) => n as u8,
            None => {
                return Err(DumpArgError::BadFormat);
            },
        };
        let frame: u8 = match parse_number(args[1].as_str(), 255) {
            Some(n) => n as u8,
            None => {
                return Err(DumpArgError::BadFrame);
            },
        };
        let interval: u32 = match parse_number(args[2].as_str(), 0xffffffff) {
            Some(n) => n as u32,
            None => {
                return Err(DumpArgError::BadInterval);
            },
        };
        Ok(DumpArgs { format, frame, interval, mode: args[3].clone(), out: args[4].clone() })
    }
}

/// How the stream dump writes what it reads.
#[derive(Debug, Clone, Copy, PartialEq, Eq)]
pub enum DumpMode {
    /// One file per JPEG frame.
    Jpeg,
    /// All payloads in one file.
    Raw,
}

/// Reads the mode of the stream dump.
pub fn dump_mode(mode: &str) -> (r: Option<DumpMode>)
    ensures
        r == (if mode@ == "jpeg"@ {
            Some(DumpMode::Jpeg)
        } else if mode@ == "raw"@ {
            Some(DumpMode::Raw)
        } else {
            None
        }),
{
    if same_text(mode, "jpeg") {
        Some(DumpMode::Jpeg)
    } else if same_text(mode, "raw") {
        Some(DumpMode::Raw)
    } else {
        None
    }
}

/// A region of a search: position, size, distance.
pub type RegionTuple = (u32, u32, u32, u32, u32);

/// The region searched by default: the full frame of 480x640, 100 cm away.
pub open spec fn default_region() -> RegionTuple {
    (0, 0, 480, 640, 100)
}

/// The value of an argument that is a 32-bit number.
pub open spec fn value_at(args: Seq<Seq<char>>, i: int) -> u32 {
    number(args[i], 0xffffffff)->Some_0 as u32
}

/// The regions that `args` give, five numbers each; an incomplete last region
/// is left out, and the default stands in for none. There is no result where
/// one of the numbers is none.
pub open spec fn search_regions(args: Seq<Seq<char>>) -> Option<Seq<RegionTuple>> {
    let n = args.len() / 5;
    if forall|i: int| 0 <= i < 5 * n ==> number(#[trigger] args[i], 0xffffffff) is Some {
        if n == 0 {
            Some(seq![default_region()])
        } else {
            Some(
                Seq::new(
                    n,
                    |k: int|
                        (
                            value_at(args, 5 * k),
                            value_at(args, 5 * k + 1),
                            value_at(args, 5 * k + 2),
                            value_at(args, 5 * k + 3),
                            value_at(args, 5 * k + 4),
                        ),
                ),
            )
        }
    } else {
        None
    }
}

/// Counterpart of optional regions.
pub open spec fn regions_view(r: Option<Vec<RegionTuple>>) -> Option<Seq<RegionTuple>> {
    match r {
        Some(v) => Some(v@),
        None => None,
    }
}

/// Reads the regions to search.
pub fn parse_regions(args: &Vec<String>) -> (r: Option<Vec<RegionTuple>>)
    ensures
        regions_view(r) == search_regions(args@.map_values(|a: String| a@)),
{
    let ghost texts = args@.map_values(|a: String| a@);
    let n: usize = args.len() / 5;
    let used: usize = 5 * n;
    let mut values: Vec<u32> = Vec::new();
    let mut i: usize = 0;
    while i < used
        invariant
            n == texts.len() / 5,
            used == 5 * n,
            used <= args@.len(),
            texts == args@.map_values(|a: String| a@),
            i <= used,
            values@.len() == i,
            forall|j: int|
                0 <= j < i ==> number(#[trigger] texts[j], 0xffffffff) == Some(values@[j] as nat),
        decreases used - i,
    {
        assert(texts[i as int] == args@[i as int]@);
        match parse_number(args[i].as_str(), 0xffffffff) {
            None => {
                assert(number(texts[i as int], 0xffffffff) is None);
                return None;
            },
            Some(v) => {
                values.push(v as u32);
            },
        }
        i = i + 1;
    }
    let mut regions: Vec<RegionTuple> = Vec::new();
    if n == 0 {
        regions.push((0, 0, 480, 640, 100));
        assert(regions@ =~= seq![default_region()]);
        return Some(regions);
    }
    let mut k: usize = 0;
    while k < n
        invariant
            k <= n,
            used == 5 * n,
            values@.len() == used,
            texts.len() >= used,
            regions@.len() == k,
            forall|j: int|
                0 <= j < 5 * n ==> number(#[trigger] texts[j], 0xffffffff) == Some(
                    values@[j] as nat,
                ),
            forall|j: int|
                0 <= j < k ==> #[trigger] regions@[j] == (
                    value_at(texts, 5 * j),
                    value_at(texts, 5 * j + 1),
                    value_at(texts, 5 * j + 2),
                    value_at(texts, 5 * j + 3),
                    value_at(texts, 5 * j + 4),
                ),
        decreases n - k,
    {
        let b: usize = 5 * k;
        assert(value_at(texts, b as int) == values@[b as int]);
        assert(value_at(texts, b + 1) == values@[b + 1]);
        assert(value_at(texts, b + 2) == values@[b + 2]);
        assert(value_at(texts, b + 3) == values@[b + 3]);
        assert(value_at(texts, b + 4) == values@[b + 4]);
        regions.push((values[b], values[b + 1], values[b + 2], values[b + 3], values[b + 4]));
        k = k + 1;
    }
    assert(regions@ =~= search_regions(texts)->Some_0);
    Some(regions)
}

/// The numbers of a list come in the order of its parts; one part that is no
/// 32-bit number spoils the list.
pub proof fn law_numbers_between_commas(parts: Seq<Seq<char>>, values: Seq<u32>, bad: int)
    requires
        0 < parts.len() == values.len(),
        forall|i: int, j: int|
            0 <= i < parts.len() && 0 <= j < parts[i].len() ==> #[trigger] parts[i][j] != ',',
    ensures
        (forall|i: int|
            0 <= i < parts.len() ==> number(#[trigger] parts[i], 4294967295) == Some(
                values[i] as nat,
            )) ==> comma_numbers(with_commas(parts)) == Some(values),
        0 <= bad < parts.len() && number(parts[bad], 4294967295) is None ==> comma_numbers(
            with_commas(parts),
        ) is None,
{
    assert forall|i: int| 0 <= i < parts.len() implies !(#[trigger] parts[i]).contains(',') by {
        if parts[i].contains(',') {
            let j = parts[i].index_of(',');
            assert(parts[i][j] == ',');
        }
    }
    law_join_round_trip(parts);
    if forall|i: int|
        0 <= i < parts.len() ==> number(#[trigger] parts[i], 4294967295) == Some(values[i] as nat) {
        assert(comma_numbers(with_commas(parts)) is Some);
        assert(comma_numbers(with_commas(parts))->Some_0 =~= values);
    }
}

/// A list argument: behind its prefix, a list of numbers that is as long as asked
/// for is read, a shorter or longer one has the wrong count, and what is no list
/// of numbers has a bad value. Without the prefix it is another argument.
pub proof fn law_list_argument(arg: Seq<char>, prefix: Seq<char>, v: Seq<char>, n: nat)
    ensures
        match comma_numbers(v) {
            Some(nums) => listed_numbers(prefix + v, prefix, n) == (if nums.len() == n {
                Ok::<Option<Seq<u32>>, NumsError>(Some(nums))
            } else {
                Err::<Option<Seq<u32>>, NumsError>(NumsError::WrongCount)
            }),
            None => listed_numbers(prefix + v, prefix, n) == Err::<Option<Seq<u32>>, NumsError>(
                NumsError::BadValue,
            ),
        },
        (forall|rest: Seq<char>| arg != prefix + rest) ==> listed_numbers(arg, prefix, n) == Ok::<
            Option<Seq<u32>>,
            NumsError,
        >(None),
{
    law_prefix_comes_off(arg, prefix, v);
}

proof fn lemma_other_prefix(arg: Seq<char>, prefix: Seq<char>, i: int)
    requires
        0 <= i < prefix.len(),
        i >= arg.len() || arg[i] != prefix[i],
    ensures
        behind(arg, prefix) is None,
{
    if behind(arg, prefix) is Some {
        assert(arg.take(prefix.len() as int)[i] == prefix[i]);
    }
}

/// What an argument changes: `frames=` sets the number of frames, `out=` the
/// directory, `temps=` the file, `point=` adds a point of two numbers, `roi=` a
/// rectangle of four, and nothing else of the options changes.
pub proof fn law_arguments_taken(o: OptionsView, v: Seq<char>, at: nat, n: nat, nums: Seq<u32>)
    ensures
        with_argument(o, "out="@ + v, at) == Ok::<OptionsView, ArgError>(
            OptionsView { out_dir: v, ..o },
        ),
        with_argument(o, "temps="@ + v, at) == Ok::<OptionsView, ArgError>(
            OptionsView { temps_file: Some(v), ..o },
        ),
        number(v, usize::MAX as nat) == Some(n) ==> with_argument(o, "frames="@ + v, at) == Ok::<
            OptionsView,
            ArgError,
        >(OptionsView { frames_wanted: n, ..o }),
        nums.len() == 2 && comma_numbers(v) == Some(nums) ==> with_argument(o, "point="@ + v, at)
            == Ok::<OptionsView, ArgError>(
            OptionsView { points: o.points.push((nums[0], nums[1])), ..o },
        ),
        nums.len() == 4 && comma_numbers(v) == Some(nums) ==> with_argument(o, "roi="@ + v, at)
            == Ok::<OptionsView, ArgError>(
            OptionsView { rois: o.rois.push((nums[0], nums[1], nums[2], nums[3])), ..o },
        ),
{
    reveal_strlit("frames=");
    reveal_strlit("out=");
    reveal_strlit("temps=");
    reveal_strlit("point=");
    reveal_strlit("roi=");
    law_prefix_comes_off(v, "frames="@, v);
    law_prefix_comes_off(v, "out="@, v);
    law_prefix_comes_off(v, "temps="@, v);
    law_prefix_comes_off(v, "point="@, v);
    law_prefix_comes_off(v, "roi="@, v);
    lemma_other_prefix("out="@ + v, "frames="@, 0);
    lemma_other_prefix("temps="@ + v, "frames="@, 0);
    lemma_other_prefix("temps="@ + v, "out="@, 0);
    lemma_other_prefix("point="@ + v, "frames="@, 0);
    lemma_other_prefix("point="@ + v, "out="@, 0);
    lemma_other_prefix("point="@ + v, "temps="@, 0);
    lemma_other_prefix("roi="@ + v, "frames="@, 0);
    lemma_other_prefix("roi="@ + v, "out="@, 0);
    lemma_other_prefix("roi="@ + v, "temps="@, 0);
    lemma_other_prefix("roi="@ + v, "point="@, 0);
}

/// What is wrong with an argument, and which one it is: `frames=` without a
/// number, `point=` or `roi=` without its list, and anything that begins with
/// none of the five prefixes.
pub proof fn law_arguments_refused(o: OptionsView, v: Seq<char>, at: usize, arg: Seq<char>)
    ensures
        number(v, usize::MAX as nat) is None ==> with_argument(o, "frames="@ + v, at as nat)
            == Err::<OptionsView, ArgError>(ArgError::BadFrames { at }),
        comma_numbers(v) is None ==> with_argument(o, "point="@ + v, at as nat) == Err::<
            OptionsView,
            ArgError,
        >(ArgError::BadList { at, kind: ListKind::Point, error: NumsError::BadValue }),
        comma_numbers(v) is None ==> with_argument(o, "roi="@ + v, at as nat) == Err::<
            OptionsView,
            ArgError,
        >(ArgError::BadList { at, kind: ListKind::Roi, error: NumsError::BadValue }),
        comma_numbers(v) is Some && comma_numbers(v)->Some_0.len() != 2 ==> with_argument(
            o,
            "point="@ + v,
            at as nat,
        ) == Err::<OptionsView, ArgError>(
            ArgError::BadList { at, kind: ListKind::Point, error: NumsError::WrongCount },
        ),
        comma_numbers(v) is Some && comma_numbers(v)->Some_0.len() != 4 ==> with_argument(
            o,
            "roi="@ + v,
            at as nat,
        ) == Err::<OptionsView, ArgError>(
            ArgError::BadList { at, kind: ListKind::Roi, error: NumsError::WrongCount },
        ),
        (forall|r: Seq<char>| arg != "frames="@ + r) && (forall|r: Seq<char>| arg != "out="@ + r) && (
        forall|r: Seq<char>| arg != "temps="@ + r) && (forall|r: Seq<char>| arg != "point="@ + r) && (
        forall|r: Seq<char>| arg != "roi="@ + r) ==> with_argument(o, arg, at as nat) == Err::<
            OptionsView,
            ArgError,
        >(ArgError::Unknown { at }),
{
    reveal_strlit("frames=");
    reveal_strlit("out=");
    reveal_strlit("temps=");
    reveal_strlit("point=");
    reveal_strlit("roi=");
    law_prefix_comes_off(arg, "frames="@, v);
    law_prefix_comes_off(arg, "out="@, v);
    law_prefix_comes_off(arg, "temps="@, v);
    law_prefix_comes_off(arg, "point="@, v);
    law_prefix_comes_off(arg, "roi="@, v);
    lemma_other_prefix("point="@ + v, "frames="@, 0);
    lemma_other_prefix("point="@ + v, "out="@, 0);
    lemma_other_prefix("point="@ + v, "temps="@, 0);
    lemma_other_prefix("roi="@ + v, "frames="@, 0);
    lemma_other_prefix("roi="@ + v, "out="@, 0);
    lemma_other_prefix("roi="@ + v, "temps="@, 0);
    lemma_other_prefix("roi="@ + v, "point="@, 0);
}

/// Arguments are taken one after the other, and the first one that is wrong
/// decides. Without arguments, three frames go to `captures` and nothing is
/// queried.
pub proof fn law_arguments_in_order(args: Seq<Seq<char>>, arg: Seq<char>)
    ensures
        options(Seq::empty()) == Ok::<OptionsView, ArgError>(
            OptionsView {
                frames_wanted: 3,
                out_dir: "captures"@,
                points: Seq::empty(),
                rois: Seq::empty(),
                temps_file: None,
            },
        ),
        options(args) matches Ok(o) ==> options(args.push(arg)) == with_argument(o, arg, args.len()),
        options(args) matches Err(e) ==> options(args.push(arg)) == Err::<OptionsView, ArgError>(e),
{
    assert(args.push(arg).drop_last() =~= args);
}

/// The stream dump takes five arguments: format and frame up to 255, an interval
/// up to 4294967295, mode and name. The first that is no such number is named.
pub proof fn law_dump_arguments(args: Seq<Seq<char>>)
    ensures
        args.len() != 5 ==> dump_args(args) == Err::<DumpArgsView, DumpArgError>(
            DumpArgError::Usage,
        ),
        args.len() == 5 ==> {
            let format = number(args[0], 255);
            let frame = number(args[1], 255);
            let interval = number(args[2], 4294967295);
            &&& format is None ==> dump_args(args) == Err::<DumpArgsView, DumpArgError>(
                DumpArgError::BadFormat,
            )
            &&& format is Some && frame is None ==> dump_args(args) == Err::<
                DumpArgsView,
                DumpArgError,
            >(DumpArgError::BadFrame)
            &&& format is Some && frame is Some && interval is None ==> dump_args(args) == Err::<
                DumpArgsView,
                DumpArgError,
            >(DumpArgError::BadInterval)
            &&& format is Some && frame is Some && interval is Some ==> (dump_args(args) matches Ok(
                a,
            ) && {
                &&& Some(a.format) == format && Some(a.frame) == frame
                &&& Some(a.interval) == interval
                &&& a.mode == args[3] && a.out == args[4]
            })
        },
{
}

/// Regions come five numbers each, in order: region `k` holds arguments `5 * k`
/// to `5 * k + 4`. An incomplete last region does not count, fewer than five
/// arguments ask for the full frame, and one bad number among those that count
/// spoils all.
pub proof fn law_regions_by_fives(args: Seq<Seq<char>>, n: int, k: int, bad: int)
    requires
        5 * n <= args.len() < 5 * n + 5,
    ensures
        n == 0 ==> search_regions(args) == Some(seq![(0u32, 0u32, 480u32, 640u32, 100u32)]),
        n > 0 ==> (search_regions(args) matches Some(r) ==> {
            &&& r.len() == n
            &&& 0 <= k < n ==> {
                &&& number(args[5 * k], 4294967295) == Some(r[k].0 as nat)
                &&& number(args[5 * k + 1], 4294967295) == Some(r[k].1 as nat)
                &&& number(args[5 * k + 2], 4294967295) == Some(r[k].2 as nat)
                &&& number(args[5 * k + 3], 4294967295) == Some(r[k].3 as nat)
                &&& number(args[5 * k + 4], 4294967295) == Some(r[k].4 as nat)
            }
        }),
        (forall|i: int| 0 <= i < 5 * n ==> number(#[trigger] args[i], 4294967295) is Some)
            ==> search_regions(args) is Some,
        0 <= bad < 5 * n && number(args[bad], 4294967295) is None ==> search_regions(args) is None,
{
    assert(args.len() / 5 == n);
    if n == 0 {
        assert(seq![default_region()] =~= seq![(0u32, 0u32, 480u32, 640u32, 100u32)]);
    } else if search_regions(args) is Some && 0 <= k < n {
        assert(number(args[5 * k], 0xffffffff) is Some);
        assert(number(args[5 * k + 1], 0xffffffff) is Some);
        assert(number(args[5 * k + 2], 0xffffffff) is Some);
        assert(number(args[5 * k + 3], 0xffffffff) is Some);
        assert(number(args[5 * k + 4], 0xffffffff) is Some);
    }
}

/// The counterparts of what was read hold all of it.
pub proof fn law_argument_counterparts(
    o: Options,
    d: DumpArgs,
    nums: Vec<u32>,
    regions: Vec<RegionTuple>,
    e: NumsError,
    f: ArgError,
)
    ensures
        o@.frames_wanted == o.frames_wanted,
        o@.out_dir == o.out_dir@,
        o@.points == o.points@,
        o@.rois == o.rois@,
        match o.temps_file {
            Some(t) => o@.temps_file == Some(t@),
            None => o@.temps_file is None,
        },
        d@.format == d.format,
        d@.frame == d.frame,
        d@.interval == d.interval,
        d@.mode == d.mode@,
        d@.out == d.out@,
        nums_view(Ok(Some(nums))) == Ok::<Option<Seq<u32>>, NumsError>(Some(nums@)),
        nums_view(Ok(None)) == Ok::<Option<Seq<u32>>, NumsError>(None),
        nums_view(Err(e)) == Err::<Option<Seq<u32>>, NumsError>(e),
        options_view(Ok(o)) == Ok::<OptionsView, ArgError>(o@),
        options_view(Err(f)) == Err::<OptionsView, ArgError>(f),
        regions_view(Some(regions)) == Some(regions@),
        regions_view(None) is None,
{
}

} // verus!
