use vstd::prelude::*;
use crate::error::{
    CuckooError, BAD_BUCKET_SIZE, BAD_CAPACITY, BAD_EXPANSION, BAD_MAX_ITERATIONS,
    BUCKET_SIZE_ARG_REQUIRED, BUCKET_SIZE_OUT_OF_RANGE, CAPACITY_ARG_REQUIRED,
    CAPACITY_MUST_BE_LARGER_THAN_ZERO, CAPACITY_OUT_OF_RANGE, EXPANSION_ARG_REQUIRED,
    ITEMS_KEYWORD_REQUIRED, MAX_ITERATIONS_ARG_REQUIRED, MAX_KICKS_OUT_OF_RANGE, UNKNOWN_OPTION,
    UNKNOWN_OPTION_OR_MISSING_ITEMS,
};
use crate::limits::{bucket_size_in_range, capacity_in_range, max_kicks_in_range};
use crate::object::{CuckooObject, ObjectView};
use crate::text::{
    chars_eq, chars_eq_ignore_ascii_case, eq_ignore_ascii_case, parse_i64, parse_i64_spec,
    to_uppercase, unicode_uppercase,
};

verus! {

/// The option keywords of the reservation and insertion commands.
#[derive(Debug, Clone, Copy, PartialEq, Eq, Structural)]
pub enum Keyword {
    Capacity,
    BucketSize,
    MaxIterations,
    NoCreate,
    Items,
    Expansion,
}

pub open spec fn keyword_text(k: Keyword) -> Seq<char> {
    match k {
        Keyword::Capacity => seq!['C', 'A', 'P', 'A', 'C', 'I', 'T', 'Y'],
        Keyword::BucketSize => seq!['B', 'U', 'C', 'K', 'E', 'T', 'S', 'I', 'Z', 'E'],
        Keyword::MaxIterations => seq![
            'M',
            'A',
            'X',
            'I',
            'T',
            'E',
            'R',
            'A',
            'T',
            'I',
            'O',
            'N',
            'S',
        ],
        Keyword::NoCreate => seq!['N', 'O', 'C', 'R', 'E', 'A', 'T', 'E'],
        Keyword::Items => seq!['I', 'T', 'E', 'M', 'S'],
        Keyword::Expansion => seq!['E', 'X', 'P', 'A', 'N', 'S', 'I', 'O', 'N'],
    }
}

/// The keyword an argument names once uppercased, if any.
pub open spec fn keyword_spec(arg: Seq<char>) -> Option<Keyword> {
    let u = unicode_uppercase(arg);
    if u == keyword_text(Keyword::Capacity) {
        Some(Keyword::Capacity)
    } else if u == keyword_text(Keyword::BucketSize) {
        Some(Keyword::BucketSize)
    } else if u == keyword_text(Keyword::MaxIterations) {
        Some(Keyword::MaxIterations)
    } else if u == keyword_text(Keyword::NoCreate) {
        Some(Keyword::NoCreate)
    } else if u == keyword_text(Keyword::Items) {
        Some(Keyword::Items)
    } else if u == keyword_text(Keyword::Expansion) {
        Some(Keyword::Expansion)
    } else {
        None
    }
}

pub fn keyword(arg: &Vec<char>) -> (r: Option<Keyword>)
    ensures
        r == keyword_spec(arg@),
{
    let u = to_uppercase(arg);
    let capacity = ['C', 'A', 'P', 'A', 'C', 'I', 'T', 'Y'];
    let bucket_size = ['B', 'U', 'C', 'K', 'E', 'T', 'S', 'I', 'Z', 'E'];
    let max_iterations = ['M', 'A', 'X', 'I', 'T', 'E', 'R', 'A', 'T', 'I', 'O', 'N', 'S'];
    let nocreate = ['N', 'O', 'C', 'R', 'E', 'A', 'T', 'E'];
    let items = ['I', 'T', 'E', 'M', 'S'];
    let expansion = ['E', 'X', 'P', 'A', 'N', 'S', 'I', 'O', 'N'];
    assert(capacity@ =~= keyword_text(Keyword::Capacity));
    assert(bucket_size@ =~= keyword_text(Keyword::BucketSize));
    assert(max_iterations@ =~= keyword_text(Keyword::MaxIterations));
    assert(nocreate@ =~= keyword_text(Keyword::NoCreate));
    assert(items@ =~= keyword_text(Keyword::Items));
    assert(expansion@ =~= keyword_text(Keyword::Expansion));
    if chars_eq(&u, &capacity) {
        Some(Keyword::Capacity)
    } else if chars_eq(&u, &bucket_size) {
        Some(Keyword::BucketSize)
    } else if chars_eq(&u, &max_iterations) {
        Some(Keyword::MaxIterations)
    } else if chars_eq(&u, &nocreate) {
        Some(Keyword::NoCreate)
    } else if chars_eq(&u, &items) {
        Some(Keyword::Items)
    } else if chars_eq(&u, &expansion) {
        Some(Keyword::Expansion)
    } else {
        None
    }
}

/// Why a capacity argument is refused: zero, or out of range.
pub open spec fn capacity_arg_error(capacity: i64) -> Option<&'static str> {
    if capacity == 0 {
        Some(CAPACITY_MUST_BE_LARGER_THAN_ZERO)
    } else if !capacity_in_range(capacity as int) {
        Some(CAPACITY_OUT_OF_RANGE)
    } else {
        None
    }
}

pub open spec fn bucket_size_arg_error(bucket_size: i64) -> Option<&'static str> {
    if !bucket_size_in_range(bucket_size as int) {
        Some(BUCKET_SIZE_OUT_OF_RANGE)
    } else {
        None
    }
}

pub open spec fn max_kicks_arg_error(max_kicks: i64) -> Option<&'static str> {
    if !max_kicks_in_range(max_kicks as int) {
        Some(MAX_KICKS_OUT_OF_RANGE)
    } else {
        None
    }
}

pub fn check_capacity_arg(capacity: i64) -> (r: Result<(), &'static str>)
    ensures
        r == match capacity_arg_error(capacity) {
            Some(e) => Err(e),
            None => Ok::<(), &'static str>(()),
        },
{
    if capacity == 0 {
        return Err(CAPACITY_MUST_BE_LARGER_THAN_ZERO);
    }
    if !(1 <= capacity && capacity <= 4294967296) {
        return Err(CAPACITY_OUT_OF_RANGE);
    }
    Ok(())
}

pub fn check_bucket_size_arg(bucket_size: i64) -> (r: Result<(), &'static str>)
    ensures
        r == match bucket_size_arg_error(bucket_size) {
            Some(e) => Err(e),
            None => Ok::<(), &'static str>(()),
        },
{
    if !(1 <= bucket_size && bucket_size <= 255) {
        return Err(BUCKET_SIZE_OUT_OF_RANGE);
    }
    Ok(())
}

pub fn check_max_kicks_arg(max_kicks: i64) -> (r: Result<(), &'static str>)
    ensures
        r == match max_kicks_arg_error(max_kicks) {
            Some(e) => Err(e),
            None => Ok::<(), &'static str>(()),
        },
{
    if !(1 <= max_kicks && max_kicks <= 65535) {
        return Err(MAX_KICKS_OUT_OF_RANGE);
    }
    Ok(())
}

/// Options of an insertion command that may create the filter.
#[derive(Debug, Clone, Copy, PartialEq, Eq)]
pub struct InsertOptions {
    pub capacity: Option<i64>,
    pub bucket_size: Option<u8>,
    pub max_kicks: Option<u32>,
    pub nocreate: bool,
}

pub open spec fn no_insert_options() -> InsertOptions {
    InsertOptions { capacity: None, bucket_size: None, max_kicks: None, nocreate: false }
}

/// Read insertion options from `idx` up to and including the `ITEMS`
/// keyword; the result holds the options and the index of the first item.
pub open spec fn insert_options_spec(args: Seq<Seq<char>>, idx: int, opts: InsertOptions) -> Result<
    (InsertOptions, int),
    &'static str,
>
    decreases args.len() - idx,
{
    if idx < 0 || idx >= args.len() {
        Err(ITEMS_KEYWORD_REQUIRED)
    } else {
        match keyword_spec(args[idx]) {
            Some(Keyword::Capacity) => if idx + 1 >= args.len() {
                Err(CAPACITY_ARG_REQUIRED)
            } else {
                match parse_i64_spec(args[idx + 1]) {
                    None => Err(BAD_CAPACITY),
                    Some(n) => match capacity_arg_error(n) {
                        Some(e) => Err(e),
                        None => insert_options_spec(
                            args,
                            idx + 2,
                            InsertOptions { capacity: Some(n), ..opts },
                        ),
                    },
                }
            },
            Some(Keyword::BucketSize) => if idx + 1 >= args.len() {
                Err(BUCKET_SIZE_ARG_REQUIRED)
            } else {
                match parse_i64_spec(args[idx + 1]) {
                    None => Err(BAD_BUCKET_SIZE),
                    Some(n) => match bucket_size_arg_error(n) {
                        Some(e) => Err(e),
                        None => insert_options_spec(
                            args,
                            idx + 2,
                            InsertOptions { bucket_size: Some(n as u8), ..opts },
                        ),
                    },
                }
            },
            Some(Keyword::MaxIterations) => if idx + 1 >= args.len() {
                Err(MAX_ITERATIONS_ARG_REQUIRED)
            } else {
                match parse_i64_spec(args[idx + 1]) {
                    None => Err(BAD_MAX_ITERATIONS),
                    Some(n) => match max_kicks_arg_error(n) {
                        Some(e) => Err(e),
                        None => insert_options_spec(
                            args,
                            idx + 2,
                            InsertOptions { max_kicks: Some(n as u32), ..opts },
                        ),
                    },
                }
            },
            Some(Keyword::NoCreate) => insert_options_spec(
                args,
                idx + 1,
                InsertOptions { nocreate: true, ..opts },
            ),
            Some(Keyword::Items) => Ok((opts, idx + 1)),
            _ => Err(UNKNOWN_OPTION_OR_MISSING_ITEMS),
        }
    }
}

pub open spec fn arg_views(args: Seq<Vec<char>>) -> Seq<Seq<char>> {
    args.map_values(|a: Vec<char>| a@)
}

/// Read the options of an insertion command starting at `start_idx`, up to
/// the `ITEMS` keyword; returns them with the index of the first item.
pub fn parse_insert_options(args: &Vec<Vec<char>>, start_idx: usize) -> (r: Result<
    (InsertOptions, usize),
    &'static str,
>)
    ensures
        match r {
            Ok((o, i)) => insert_options_spec(arg_views(args@), start_idx as int, no_insert_options())
                == Ok::<(InsertOptions, int), &'static str>((o, i as int)),
            Err(e) => insert_options_spec(arg_views(args@), start_idx as int, no_insert_options())
                == Err::<(InsertOptions, int), &'static str>(e),
        },
{
    let ghost a = arg_views(args@);
    let ghost goal = insert_options_spec(a, start_idx as int, no_insert_options());
    let argc = args.len();
    let mut options = InsertOptions {
        capacity: None,
        bucket_size: None,
        max_kicks: None,
        nocreate: false,
    };
    let mut idx = start_idx;
    while idx < argc
        invariant
            argc == args@.len(),
            a == arg_views(args@),
            a.len() == argc,
            forall|j: int| 0 <= j < argc ==> #[trigger] a[j] == args@[j]@,
            goal == insert_options_spec(a, start_idx as int, no_insert_options()),
            insert_options_spec(a, idx as int, options) == goal,
        decreases argc - idx,
    {
        assert(a[idx as int] == args@[idx as int]@);
        match keyword(&args[idx]) {
            Some(Keyword::Capacity) => {
                if idx + 1 >= argc {
                    return Err(CAPACITY_ARG_REQUIRED);
                }
                assert(a[idx + 1] == args@[idx + 1]@);
                match parse_i64(&args[idx + 1]) {
                    Some(n) => {
                        check_capacity_arg(n)?;
                        options.capacity = Some(n);
                    },
                    None => {
                        return Err(BAD_CAPACITY);
                    },
                }
                idx = idx + 2;
            },
            Some(Keyword::BucketSize) => {
                if idx + 1 >= argc {
                    return Err(BUCKET_SIZE_ARG_REQUIRED);
                }
                assert(a[idx + 1] == args@[idx + 1]@);
                match parse_i64(&args[idx + 1]) {
                    Some(n) => {
                        check_bucket_size_arg(n)?;
                        options.bucket_size = Some(n as u8);
                    },
                    None => {
                        return Err(BAD_BUCKET_SIZE);
                    },
                }
                idx = idx + 2;
            },
            Some(Keyword::MaxIterations) => {
                if idx + 1 >= argc {
                    return Err(MAX_ITERATIONS_ARG_REQUIRED);
                }
                assert(a[idx + 1] == args@[idx + 1]@);
                match parse_i64(&args[idx + 1]) {
                    Some(n) => {
                        check_max_kicks_arg(n)?;
                        options.max_kicks = Some(n as u32);
                    },
                    None => {
                        return Err(BAD_MAX_ITERATIONS);
                    },
                }
                idx = idx + 2;
            },
            Some(Keyword::NoCreate) => {
                options.nocreate = true;
                idx = idx + 1;
            },
            Some(Keyword::Items) => {
                return Ok((options, idx + 1));
            },
            _ => {
                return Err(UNKNOWN_OPTION_OR_MISSING_ITEMS);
            },
        }
    }
    Err(ITEMS_KEYWORD_REQUIRED)
}

/// The settings of a reservation command.
#[derive(Debug, Clone, Copy, PartialEq, Eq, Structural)]
pub struct ReserveParams {
    pub capacity: i64,
    pub bucket_size: i64,
    pub max_kicks: i64,
    pub expansion: i64,
}

/// Read reservation options from `idx`; every option takes a value.
pub open spec fn reserve_options_spec(args: Seq<Seq<char>>, idx: int, p: ReserveParams) -> Result<
    ReserveParams,
    &'static str,
>
    decreases args.len() - idx,
{
    if idx < 0 || idx >= args.len() {
        Ok(p)
    } else {
        match keyword_spec(args[idx]) {
            Some(Keyword::BucketSize) => if idx + 1 >= args.len() {
                Err(BUCKET_SIZE_ARG_REQUIRED)
            } else {
                match parse_i64_spec(args[idx + 1]) {
                    None => Err(BAD_BUCKET_SIZE),
                    Some(n) => match bucket_size_arg_error(n) {
                        Some(e) => Err(e),
                        None => reserve_options_spec(args, idx + 2, ReserveParams { bucket_size: n, ..p }),
                    },
                }
            },
            Some(Keyword::MaxIterations) => if idx + 1 >= args.len() {
                Err(MAX_ITERATIONS_ARG_REQUIRED)
            } else {
                match parse_i64_spec(args[idx + 1]) {
                    None => Err(BAD_MAX_ITERATIONS),
                    Some(n) => match max_kicks_arg_error(n) {
                        Some(e) => Err(e),
                        None => reserve_options_spec(args, idx + 2, ReserveParams { max_kicks: n, ..p }),
                    },
                }
            },
            Some(Keyword::Expansion) => if idx + 1 >= args.len() {
                Err(EXPANSION_ARG_REQUIRED)
            } else {
                match parse_i64_spec(args[idx + 1]) {
                    Some(n) => if 0 <= n <= 32768 {
                        reserve_options_spec(args, idx + 2, ReserveParams { expansion: n, ..p })
                    } else {
                        Err(BAD_EXPANSION)
                    },
                    None => Err(BAD_EXPANSION),
                }
            },
            _ => Err(UNKNOWN_OPTION),
        }
    }
}

/// The settings a reservation command `args` (name, key, capacity, options)
/// asks for, starting from the configured defaults.
pub open spec fn reserve_args_spec(
    args: Seq<Seq<char>>,
    bucket_size: i64,
    max_kicks: i64,
    expansion: i64,
) -> Result<ReserveParams, &'static str> {
    match parse_i64_spec(args[2]) {
        None => Err(BAD_CAPACITY),
        Some(c) => match capacity_arg_error(c) {
            Some(e) => Err(e),
            None => reserve_options_spec(
                args,
                3,
                ReserveParams { capacity: c, bucket_size, max_kicks, expansion },
            ),
        },
    }
}

/// Read a reservation command: its capacity, then its options over the
/// configured defaults.
pub fn parse_reserve_args(
    args: &Vec<Vec<char>>,
    bucket_size: i64,
    max_kicks: i64,
    expansion: i64,
) -> (r: Result<ReserveParams, &'static str>)
    requires
        args@.len() >= 3,
    ensures
        r == reserve_args_spec(arg_views(args@), bucket_size, max_kicks, expansion),
{
    let ghost a = arg_views(args@);
    assert(a[2] == args@[2]@);
    let capacity = match parse_i64(&args[2]) {
        Some(n) => n,
        None => {
            return Err(BAD_CAPACITY);
        },
    };
    check_capacity_arg(capacity)?;
    let mut params = ReserveParams { capacity, bucket_size, max_kicks, expansion };
    let ghost goal = reserve_args_spec(a, bucket_size, max_kicks, expansion);
    let argc = args.len();
    let mut idx: usize = 3;
    while idx < argc
        invariant
            argc == args@.len(),
            a == arg_views(args@),
            a.len() == argc,
            forall|j: int| 0 <= j < argc ==> #[trigger] a[j] == args@[j]@,
            reserve_options_spec(a, idx as int, params) == goal,
            goal == reserve_args_spec(arg_views(args@), bucket_size, max_kicks, expansion),
            3 <= idx,
        decreases argc - idx,
    {
        assert(a[idx as int] == args@[idx as int]@);
        match keyword(&args[idx]) {
            Some(Keyword::BucketSize) => {
                if idx + 1 >= argc {
                    return Err(BUCKET_SIZE_ARG_REQUIRED);
                }
                assert(a[idx + 1] == args@[idx + 1]@);
                match parse_i64(&args[idx + 1]) {
                    Some(n) => {
                        check_bucket_size_arg(n)?;
                        params.bucket_size = n;
                    },
                    None => {
                        return Err(BAD_BUCKET_SIZE);
                    },
                }
            },
            Some(Keyword::MaxIterations) => {
                if idx + 1 >= argc {
                    return Err(MAX_ITERATIONS_ARG_REQUIRED);
                }
                assert(a[idx + 1] == args@[idx + 1]@);
                match parse_i64(&args[idx + 1]) {
                    Some(n) => {
                        check_max_kicks_arg(n)?;
                        params.max_kicks = n;
                    },
                    None => {
                        return Err(BAD_MAX_ITERATIONS);
                    },
                }
            },
            Some(Keyword::Expansion) => {
                if idx + 1 >= argc {
                    return Err(EXPANSION_ARG_REQUIRED);
                }
                assert(a[idx + 1] == args@[idx + 1]@);
                match parse_i64(&args[idx + 1]) {
                    Some(n) => {
                        if 0 <= n && n <= 32768 {
                            params.expansion = n;
                        } else {
                            return Err(BAD_EXPANSION);
                        }
                    },
                    None => {
                        return Err(BAD_EXPANSION);
                    },
                }
            },
            _ => {
                return Err(UNKNOWN_OPTION);
            },
        }
        idx = idx + 2;
    }
    Ok(params)
}

/// The number of fields `CF.INFO` reports.
pub const INFO_FIELD_COUNT: usize = 8;

pub open spec fn info_field_name_spec(i: int) -> Seq<char> {
    if i == 0 {
        seq!['S', 'i', 'z', 'e']
    } else if i == 1 {
        seq!['N', 'u', 'm', 'b', 'e', 'r', ' ', 'o', 'f', ' ', 'b', 'u', 'c', 'k', 'e', 't', 's']
    } else if i == 2 {
        seq!['N', 'u', 'm', 'b', 'e', 'r', ' ', 'o', 'f', ' ', 'i', 't', 'e', 'm', 's', ' ', 'i', 'n', 's', 'e', 'r', 't', 'e', 'd']
    } else if i == 3 {
        seq!['N', 'u', 'm', 'b', 'e', 'r', ' ', 'o', 'f', ' ', 'i', 't', 'e', 'm', 's', ' ', 'd', 'e', 'l', 'e', 't', 'e', 'd']
    } else if i == 4 {
        seq!['N', 'u', 'm', 'b', 'e', 'r', ' ', 'o', 'f', ' ', 'f', 'i', 'l', 't', 'e', 'r', 's']
    } else if i == 5 {
        seq!['B', 'u', 'c', 'k', 'e', 't', ' ', 's', 'i', 'z', 'e']
    } else if i == 6 {
        seq!['M', 'a', 'x', ' ', 'i', 't', 'e', 'r', 'a', 't', 'i', 'o', 'n', 's']
    } else {
        seq!['E', 'x', 'p', 'a', 'n', 's', 'i', 'o', 'n', ' ', 'r', 'a', 't', 'e']
    }
}

/// The label of `CF.INFO` field `i`.
pub fn info_field_name(i: usize) -> (r: Vec<char>)
    requires
        i < INFO_FIELD_COUNT,
    ensures
        r@ == info_field_name_spec(i as int),
{
    let r = if i == 0 {
        vec!['S', 'i', 'z', 'e']
    } else if i == 1 {
        vec!['N', 'u', 'm', 'b', 'e', 'r', ' ', 'o', 'f', ' ', 'b', 'u', 'c', 'k', 'e', 't', 's']
    } else if i == 2 {
        vec!['N', 'u', 'm', 'b', 'e', 'r', ' ', 'o', 'f', ' ', 'i', 't', 'e', 'm', 's', ' ', 'i', 'n', 's', 'e', 'r', 't', 'e', 'd']
    } else if i == 3 {
        vec!['N', 'u', 'm', 'b', 'e', 'r', ' ', 'o', 'f', ' ', 'i', 't', 'e', 'm', 's', ' ', 'd', 'e', 'l', 'e', 't', 'e', 'd']
    } else if i == 4 {
        vec!['N', 'u', 'm', 'b', 'e', 'r', ' ', 'o', 'f', ' ', 'f', 'i', 'l', 't', 'e', 'r', 's']
    } else if i == 5 {
        vec!['B', 'u', 'c', 'k', 'e', 't', ' ', 's', 'i', 'z', 'e']
    } else if i == 6 {
        vec!['M', 'a', 'x', ' ', 'i', 't', 'e', 'r', 'a', 't', 'i', 'o', 'n', 's']
    } else {
        vec!['E', 'x', 'p', 'a', 'n', 's', 'i', 'o', 'n', ' ', 'r', 'a', 't', 'e']
    };
    assert(r@ =~= info_field_name_spec(i as int));
    r
}

/// The first field whose label equals `name` ignoring ASCII case.
pub open spec fn info_field_spec(name: Seq<char>) -> Option<usize> {
    first_info_field(name, 0)
}

pub open spec fn first_info_field(name: Seq<char>, i: int) -> Option<usize>
    decreases INFO_FIELD_COUNT - i,
{
    if i < 0 || i >= INFO_FIELD_COUNT {
        None
    } else if eq_ignore_ascii_case(name, info_field_name_spec(i)) {
        Some(i as usize)
    } else {
        first_info_field(name, i + 1)
    }
}

/// Find the `CF.INFO` field a client named, ignoring ASCII case.
pub fn info_field_index(name: &Vec<char>) -> (r: Option<usize>)
    ensures
        r == info_field_spec(name@),
{
    let mut i: usize = 0;
    while i < INFO_FIELD_COUNT
        invariant
            0 <= i <= INFO_FIELD_COUNT,
            first_info_field(name@, i as int) == info_field_spec(name@),
        decreases INFO_FIELD_COUNT - i,
    {
        let label = info_field_name(i);
        if chars_eq_ignore_ascii_case(name, label.as_slice()) {
            return Some(i);
        }
        i = i + 1;
    }
    None
}

/// The reply to one item of an insertion: 1 when stored, 0 when skipped as
/// already present, or the error that stopped the command.
pub open spec fn inserted(r: Result<i64, CuckooError>) -> bool {
    r == Ok::<i64, CuckooError>(1)
}

/// Indexes of the items that were stored, in order.
pub open spec fn inserted_indexes(rs: Seq<Result<i64, CuckooError>>) -> Seq<usize>
    decreases rs.len(),
{
    if rs.len() == 0 {
        seq![]
    } else if inserted(rs.last()) {
        inserted_indexes(rs.drop_last()).push((rs.len() - 1) as usize)
    } else {
        inserted_indexes(rs.drop_last())
    }
}

/// The items to replicate after an insertion command: exactly those it
/// stored, so a replica never stores what the primary skipped or refused.
pub fn replicated_items(results: &Vec<Result<i64, CuckooError>>) -> (r: Vec<usize>)
    ensures
        r@ == inserted_indexes(results@),
{
    let mut out: Vec<usize> = Vec::new();
    let mut i: usize = 0;
    while i < results.len()
        invariant
            0 <= i <= results@.len(),
            out@ == inserted_indexes(results@.take(i as int)),
        decreases results@.len() - i,
    {
        assert(results@.take(i + 1).drop_last() =~= results@.take(i as int));
        let stored = match results[i] {
            Ok(v) => v == 1,
            Err(_) => false,
        };
        if stored {
            out.push(i);
        }
        i = i + 1;
    }
    assert(results@.take(results@.len() as int) =~= results@);
    out
}

/// Whether an insertion command changed the filter: it stored some item.
pub fn any_inserted(results: &Vec<Result<i64, CuckooError>>) -> (r: bool)
    ensures
        r == exists|i: int| 0 <= i < results@.len() && inserted(#[trigger] results@[i]),
{
    let mut i: usize = 0;
    while i < results.len()
        invariant
            0 <= i <= results@.len(),
            forall|j: int| 0 <= j < i ==> !inserted(#[trigger] results@[j]),
        decreases results@.len() - i,
    {
        let stored = match results[i] {
            Ok(v) => v == 1,
            Err(_) => false,
        };
        if stored {
            return true;
        }
        i = i + 1;
    }
    false
}

/// The option `kw` is named at `j` and its value reads as `n`.
pub open spec fn option_at(args: Seq<Seq<char>>, j: int, kw: Keyword, n: i64) -> bool {
    &&& 0 <= j
    &&& j + 1 < args.len()
    &&& keyword_spec(args[j]) == Some(kw)
    &&& parse_i64_spec(args[j + 1]) == Some(n)
}

/// Reading insertion options changes a field only by that field's own
/// option: a field set before stays set (`NOCREATE` stays on), and a field
/// whose value differs from the one it started with took the value that
/// follows its own keyword somewhere in the options read.
pub proof fn lemma_insert_options_keep_fields(args: Seq<Seq<char>>, idx: int, opts: InsertOptions)
    requires
        insert_options_spec(args, idx, opts) is Ok,
    ensures
        ({
            let (o, k) = insert_options_spec(args, idx, opts).unwrap();
            &&& idx < k <= args.len()
            &&& opts.nocreate ==> o.nocreate
            &&& o.nocreate ==> opts.nocreate || exists|j: int|
                idx <= j < k && keyword_spec(#[trigger] args[j]) == Some(Keyword::NoCreate)
            &&& opts.capacity is Some ==> o.capacity is Some
            &&& opts.bucket_size is Some ==> o.bucket_size is Some
            &&& opts.max_kicks is Some ==> o.max_kicks is Some
            &&& o.capacity != opts.capacity ==> exists|j: int, n: i64|
                idx <= j < k && #[trigger] option_at(args, j, Keyword::Capacity, n) && o.capacity
                    == Some(n)
            &&& o.bucket_size != opts.bucket_size ==> exists|j: int, n: i64|
                idx <= j < k && #[trigger] option_at(args, j, Keyword::BucketSize, n)
                    && o.bucket_size == Some(n as u8)
            &&& o.max_kicks != opts.max_kicks ==> exists|j: int, n: i64|
                idx <= j < k && #[trigger] option_at(args, j, Keyword::MaxIterations, n)
                    && o.max_kicks == Some(n as u32)
        }),
    decreases args.len() - idx,
{
    let kw = keyword_spec(args[idx]);
    match kw {
        Some(Keyword::Capacity) => {
            let n = parse_i64_spec(args[idx + 1]).unwrap();
            let next = InsertOptions { capacity: Some(n), ..opts };
            lemma_insert_options_keep_fields(args, idx + 2, next);
            assert(option_at(args, idx, Keyword::Capacity, n));
        },
        Some(Keyword::BucketSize) => {
            let n = parse_i64_spec(args[idx + 1]).unwrap();
            let next = InsertOptions { bucket_size: Some(n as u8), ..opts };
            lemma_insert_options_keep_fields(args, idx + 2, next);
            assert(option_at(args, idx, Keyword::BucketSize, n));
        },
        Some(Keyword::MaxIterations) => {
            let n = parse_i64_spec(args[idx + 1]).unwrap();
            let next = InsertOptions { max_kicks: Some(n as u32), ..opts };
            lemma_insert_options_keep_fields(args, idx + 2, next);
            assert(option_at(args, idx, Keyword::MaxIterations, n));
        },
        Some(Keyword::NoCreate) => {
            let next = InsertOptions { nocreate: true, ..opts };
            lemma_insert_options_keep_fields(args, idx + 1, next);
            assert(keyword_spec(args[idx]) == Some(Keyword::NoCreate));
        },
        _ => {},
    }
}

/// Reading reservation options changes a setting only by that setting's own
/// option: a setting that differs from the one it started with took the
/// value that follows its own keyword somewhere in the options read; a
/// setting whose keyword does not occur keeps its starting value.
pub proof fn lemma_reserve_options_keep_fields(args: Seq<Seq<char>>, idx: int, p: ReserveParams)
    requires
        reserve_options_spec(args, idx, p) is Ok,
        0 <= idx,
    ensures
        ({
            let q = reserve_options_spec(args, idx, p).unwrap();
            &&& q.capacity == p.capacity
            &&& q.bucket_size != p.bucket_size ==> exists|j: int|
                idx <= j && #[trigger] option_at(args, j, Keyword::BucketSize, q.bucket_size)
            &&& q.max_kicks != p.max_kicks ==> exists|j: int|
                idx <= j && #[trigger] option_at(args, j, Keyword::MaxIterations, q.max_kicks)
            &&& q.expansion != p.expansion ==> exists|j: int|
                idx <= j && #[trigger] option_at(args, j, Keyword::Expansion, q.expansion)
        }),
    decreases args.len() - idx,
{
    if idx < args.len() {
        match keyword_spec(args[idx]) {
            Some(Keyword::BucketSize) => {
                let n = parse_i64_spec(args[idx + 1]).unwrap();
                lemma_reserve_options_keep_fields(args, idx + 2, ReserveParams { bucket_size: n, ..p });
                assert(option_at(args, idx, Keyword::BucketSize, n));
            },
            Some(Keyword::MaxIterations) => {
                let n = parse_i64_spec(args[idx + 1]).unwrap();
                lemma_reserve_options_keep_fields(args, idx + 2, ReserveParams { max_kicks: n, ..p });
                assert(option_at(args, idx, Keyword::MaxIterations, n));
            },
            Some(Keyword::Expansion) => {
                let n = parse_i64_spec(args[idx + 1]).unwrap();
                lemma_reserve_options_keep_fields(args, idx + 2, ReserveParams { expansion: n, ..p });
                assert(option_at(args, idx, Keyword::Expansion, n));
            },
            _ => {},
        }
    }
}

/// A reservation command takes its capacity from its third argument, and each
/// other setting from the configured default unless its own option names
/// another value.
pub proof fn lemma_reserve_args_keep_defaults(
    args: Seq<Seq<char>>,
    bucket_size: i64,
    max_kicks: i64,
    expansion: i64,
)
    requires
        args.len() >= 3,
        reserve_args_spec(args, bucket_size, max_kicks, expansion) is Ok,
    ensures
        ({
            let q = reserve_args_spec(args, bucket_size, max_kicks, expansion).unwrap();
            &&& parse_i64_spec(args[2]) == Some(q.capacity)
            &&& q.bucket_size != bucket_size ==> exists|j: int|
                3 <= j && #[trigger] option_at(args, j, Keyword::BucketSize, q.bucket_size)
            &&& q.max_kicks != max_kicks ==> exists|j: int|
                3 <= j && #[trigger] option_at(args, j, Keyword::MaxIterations, q.max_kicks)
            &&& q.expansion != expansion ==> exists|j: int|
                3 <= j && #[trigger] option_at(args, j, Keyword::Expansion, q.expansion)
        }),
{
    let c = parse_i64_spec(args[2]).unwrap();
    lemma_reserve_options_keep_fields(
        args,
        3,
        ReserveParams { capacity: c, bucket_size, max_kicks, expansion },
    );
}

/// The value `CF.INFO` field `i` reports for an object; `buckets` is the
/// engine's total bucket count over its subfilters.
pub open spec fn info_value_spec(o: ObjectView, i: int, buckets: i64) -> int {
    if i == 0 {
        o.memory() as i64 as int
    } else if i == 1 {
        buckets as int
    } else if i == 2 {
        o.total_items()
    } else if i == 3 {
        o.num_deleted as int
    } else if i == 4 {
        o.filters.len() as int
    } else if i == 5 {
        o.bucket_size as int
    } else if i == 6 {
        o.max_kicks as int
    } else {
        o.expansion as int
    }
}

/// The value of `CF.INFO` field `field` for `object`.
pub fn info_value(object: &CuckooObject, field: usize, buckets: i64) -> (r: i64)
    requires
        object@.wf(),
        field < INFO_FIELD_COUNT,
    ensures
        r == info_value_spec(object@, field as int, buckets),
{
    if field == 0 {
        object.memory_usage() as i64
    } else if field == 1 {
        buckets
    } else if field == 2 {
        object.num_items()
    } else if field == 3 {
        object.num_deleted()
    } else if field == 4 {
        object.num_filters() as i64
    } else if field == 5 {
        object.bucket_size() as i64
    } else if field == 6 {
        object.max_kicks() as i64
    } else {
        object.expansion() as i64
    }
}

/// Every `CF.INFO` label reports what it names: "Number of items inserted"
/// the stored fingerprints, "Number of items deleted" the deletions, "Number
/// of filters" the subfilter count, "Size" the accounted bytes, "Number of
/// buckets" the engine's bucket count, "Bucket size", "Max iterations" and
/// "Expansion rate" the settings; and each label is reported.
pub proof fn lemma_info_labels_name_their_values(o: ObjectView, buckets: i64)
    requires
        o.wf(),
    ensures
        forall|i: int|
            0 <= i < INFO_FIELD_COUNT ==> {
                &&& #[trigger] info_field_name_spec(i) == seq!['S', 'i', 'z', 'e'] ==> info_value_spec(o, i, buckets)
                    == o.memory() as i64 as int
                &&& info_field_name_spec(i) == seq!['N', 'u', 'm', 'b', 'e', 'r', ' ', 'o', 'f', ' ', 'b', 'u', 'c', 'k', 'e', 't', 's']
                    ==> info_value_spec(o, i, buckets) == buckets as int
                &&& info_field_name_spec(i) == seq!['N', 'u', 'm', 'b', 'e', 'r', ' ', 'o', 'f', ' ', 'i', 't', 'e', 'm', 's', ' ', 'i', 'n', 's', 'e', 'r', 't', 'e', 'd']
                    ==> info_value_spec(o, i, buckets) == o.total_items()
                &&& info_field_name_spec(i) == seq!['N', 'u', 'm', 'b', 'e', 'r', ' ', 'o', 'f', ' ', 'i', 't', 'e', 'm', 's', ' ', 'd', 'e', 'l', 'e', 't', 'e', 'd']
                    ==> info_value_spec(o, i, buckets) == o.num_deleted as int
                &&& info_field_name_spec(i) == seq!['N', 'u', 'm', 'b', 'e', 'r', ' ', 'o', 'f', ' ', 'f', 'i', 'l', 't', 'e', 'r', 's']
                    ==> info_value_spec(o, i, buckets) == o.filters.len() as int
                &&& info_field_name_spec(i) == seq!['B', 'u', 'c', 'k', 'e', 't', ' ', 's', 'i', 'z', 'e']
                    ==> info_value_spec(o, i, buckets) == o.bucket_size as int
                &&& info_field_name_spec(i) == seq!['M', 'a', 'x', ' ', 'i', 't', 'e', 'r', 'a', 't', 'i', 'o', 'n', 's']
                    ==> info_value_spec(o, i, buckets) == o.max_kicks as int
                &&& info_field_name_spec(i) == seq!['E', 'x', 'p', 'a', 'n', 's', 'i', 'o', 'n', ' ', 'r', 'a', 't', 'e']
                    ==> info_value_spec(o, i, buckets) == o.expansion as int
            },
        info_field_name_spec(2) == seq!['N', 'u', 'm', 'b', 'e', 'r', ' ', 'o', 'f', ' ', 'i', 't', 'e', 'm', 's', ' ', 'i', 'n', 's', 'e', 'r', 't', 'e', 'd'],
        info_field_name_spec(4) == seq!['N', 'u', 'm', 'b', 'e', 'r', ' ', 'o', 'f', ' ', 'f', 'i', 'l', 't', 'e', 'r', 's'],
        forall|i: int, j: int|
            0 <= i < j < INFO_FIELD_COUNT ==> #[trigger] info_field_name_spec(i) != #[trigger] info_field_name_spec(j),
{
    let names = Seq::new(8, |i: int| info_field_name_spec(i));
    assert forall|i: int, j: int|
        0 <= i < j < INFO_FIELD_COUNT implies #[trigger] info_field_name_spec(i) != #[trigger] info_field_name_spec(j) by {
        let a = info_field_name_spec(i);
        let b = info_field_name_spec(j);
        if a.len() == b.len() {
            if a[0] == b[0] {
                assert(a[10] != b[10]);
            } else {
                assert(a[0] != b[0]);
            }
        }
    }
    assert forall|i: int| 0 <= i < INFO_FIELD_COUNT implies {
        &&& #[trigger] info_field_name_spec(i) == seq!['S', 'i', 'z', 'e'] ==> info_value_spec(o, i, buckets)
            == o.memory() as i64 as int
        &&& info_field_name_spec(i) == seq!['N', 'u', 'm', 'b', 'e', 'r', ' ', 'o', 'f', ' ', 'b', 'u', 'c', 'k', 'e', 't', 's']
            ==> info_value_spec(o, i, buckets) == buckets as int
        &&& info_field_name_spec(i) == seq!['N', 'u', 'm', 'b', 'e', 'r', ' ', 'o', 'f', ' ', 'i', 't', 'e', 'm', 's', ' ', 'i', 'n', 's', 'e', 'r', 't', 'e', 'd']
            ==> info_value_spec(o, i, buckets) == o.total_items()
        &&& info_field_name_spec(i) == seq!['N', 'u', 'm', 'b', 'e', 'r', ' ', 'o', 'f', ' ', 'i', 't', 'e', 'm', 's', ' ', 'd', 'e', 'l', 'e', 't', 'e', 'd']
            ==> info_value_spec(o, i, buckets) == o.num_deleted as int
        &&& info_field_name_spec(i) == seq!['N', 'u', 'm', 'b', 'e', 'r', ' ', 'o', 'f', ' ', 'f', 'i', 'l', 't', 'e', 'r', 's']
            ==> info_value_spec(o, i, buckets) == o.filters.len() as int
        &&& info_field_name_spec(i) == seq!['B', 'u', 'c', 'k', 'e', 't', ' ', 's', 'i', 'z', 'e']
            ==> info_value_spec(o, i, buckets) == o.bucket_size as int
        &&& info_field_name_spec(i) == seq!['M', 'a', 'x', ' ', 'i', 't', 'e', 'r', 'a', 't', 'i', 'o', 'n', 's']
            ==> info_value_spec(o, i, buckets) == o.max_kicks as int
        &&& info_field_name_spec(i) == seq!['E', 'x', 'p', 'a', 'n', 's', 'i', 'o', 'n', ' ', 'r', 'a', 't', 'e']
            ==> info_value_spec(o, i, buckets) == o.expansion as int
    } by {
        assert forall|j: int| 0 <= j < INFO_FIELD_COUNT && j != i implies info_field_name_spec(j)
            != info_field_name_spec(i) by {
            let a = info_field_name_spec(i);
            let b = info_field_name_spec(j);
            if a.len() == b.len() {
                if a[0] == b[0] {
                    assert(a[10] != b[10]);
                }
            }
        }
        assert(seq!['S', 'i', 'z', 'e'] == info_field_name_spec(0));
        assert(seq!['N', 'u', 'm', 'b', 'e', 'r', ' ', 'o', 'f', ' ', 'b', 'u', 'c', 'k', 'e', 't', 's'] == info_field_name_spec(1));
        assert(seq!['N', 'u', 'm', 'b', 'e', 'r', ' ', 'o', 'f', ' ', 'i', 't', 'e', 'm', 's', ' ', 'i', 'n', 's', 'e', 'r', 't', 'e', 'd'] == info_field_name_spec(2));
        assert(seq!['N', 'u', 'm', 'b', 'e', 'r', ' ', 'o', 'f', ' ', 'i', 't', 'e', 'm', 's', ' ', 'd', 'e', 'l', 'e', 't', 'e', 'd'] == info_field_name_spec(3));
        assert(seq!['N', 'u', 'm', 'b', 'e', 'r', ' ', 'o', 'f', ' ', 'f', 'i', 'l', 't', 'e', 'r', 's'] == info_field_name_spec(4));
        assert(seq!['B', 'u', 'c', 'k', 'e', 't', ' ', 's', 'i', 'z', 'e'] == info_field_name_spec(5));
        assert(seq!['M', 'a', 'x', ' ', 'i', 't', 'e', 'r', 'a', 't', 'i', 'o', 'n', 's'] == info_field_name_spec(6));
        assert(seq!['E', 'x', 'p', 'a', 'n', 's', 'i', 'o', 'n', ' ', 'r', 'a', 't', 'e'] == info_field_name_spec(7));
    }
}

} // verus!
