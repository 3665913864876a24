//! The scan for a type parameter inside the type of a field.
//!
//! A field's type is a path whose segments may carry type arguments, which are paths
//! again. The scan walks this tree and answers where the parameter is first named, so
//! that the right bound can be put on the generated impl.

use vstd::prelude::*;
use vstd::string::StringExecFns;

verus! {

/// One generic argument.
#[derive(Debug, PartialEq, Eq)]
pub enum Argument {
    /// A type that is written as a path.
    Path(TypePath),
    /// Anything else: a lifetime, a constant, a type of another shape.
    Other,
}

/// The arguments of one segment.
#[derive(Debug, PartialEq, Eq)]
pub enum Arguments {
    /// None, as in `Vec`.
    Absent,
    /// In angle brackets, as in `Vec<T>`.
    AngleBracketed(Vec<Argument>),
    /// In parentheses, as in `Fn(T) -> U`.
    Parenthesized,
}

/// One segment of a path.
#[derive(Debug, PartialEq, Eq)]
pub struct Segment {
    pub ident: String,
    pub arguments: Arguments,
}

/// A type written as a path, as in `std::vec::Vec<T>`.
#[derive(Debug, PartialEq, Eq)]
pub struct TypePath {
    pub segments: Vec<Segment>,
}

/// What the scan answers.
#[derive(Debug, PartialEq, Eq)]
pub enum Scan {
    /// The parameter is not named where the scan looks.
    Absent,
    /// The parameter starts the path that is reached from the root by these steps: the
    /// place of a segment, then the place of one of its arguments, and so on.
    Found(Vec<usize>),
    /// The scan met arguments in parentheses, which it cannot read.
    Unsupported,
}

/// The value of a [`Scan`].
pub ghost enum ScanModel {
    Absent,
    Found(Seq<usize>),
    Unsupported,
}

impl View for Scan {
    type V = ScanModel;

    open spec fn view(&self) -> ScanModel {
        match self {
            Scan::Absent => ScanModel::Absent,
            Scan::Found(route) => ScanModel::Found(route@),
            Scan::Unsupported => ScanModel::Unsupported,
        }
    }
}

/// The name of the marker type whose arguments are not looked into.
pub open spec fn phantom() -> Seq<char> {
    "PhantomData"@
}

/// Some segment of the path, from place `i` on, is the marker type.
pub open spec fn has_phantom_from(p: TypePath, i: int) -> bool
    decreases p.segments.len() - i,
{
    if i < 0 || i >= p.segments.len() {
        false
    } else {
        p.segments@[i].ident@ == phantom() || has_phantom_from(p, i + 1)
    }
}

/// Some segment of the path is the marker type.
pub open spec fn has_phantom(p: TypePath) -> bool {
    has_phantom_from(p, 0)
}

/// The answer with two more steps in front of the route.
pub open spec fn deeper(found: ScanModel, segment: usize, argument: usize) -> ScanModel {
    match found {
        ScanModel::Found(route) => ScanModel::Found(seq![segment, argument] + route),
        other => other,
    }
}

/// The scan of a path. A path with the marker type among its segments holds nothing. A
/// path whose first segment is the parameter is the answer. Otherwise the arguments of
/// its segments are scanned from left to right.
pub open spec fn scan_path(p: TypePath, param: Seq<char>) -> ScanModel
    decreases p, p.segments.len() + 1,
{
    if has_phantom(p) {
        ScanModel::Absent
    } else if p.segments.len() > 0 && p.segments@[0].ident@ == param {
        ScanModel::Found(Seq::empty())
    } else {
        scan_segments(p, 0, param)
    }
}

/// The scan of the arguments of the segments from place `i` on. The first answer other
/// than `Absent` is the answer.
pub open spec fn scan_segments(p: TypePath, i: int, param: Seq<char>) -> ScanModel
    decreases p, p.segments.len() - i,
{
    if i < 0 || i >= p.segments.len() {
        ScanModel::Absent
    } else {
        let here = match p.segments@[i].arguments {
            Arguments::Absent => ScanModel::Absent,
            Arguments::Parenthesized => ScanModel::Unsupported,
            Arguments::AngleBracketed(args) => scan_arguments(args, i as usize, 0, param),
        };
        match here {
            ScanModel::Absent => scan_segments(p, i + 1, param),
            other => other,
        }
    }
}

/// The scan of the arguments of segment `segment` from place `j` on. Only arguments
/// that are paths are looked into.
pub open spec fn scan_arguments(
    args: Vec<Argument>,
    segment: usize,
    j: int,
    param: Seq<char>,
) -> ScanModel
    decreases args, args.len() - j,
{
    if j < 0 || j >= args.len() {
        ScanModel::Absent
    } else {
        let here = match args@[j] {
            Argument::Path(q) => deeper(scan_path(q, param), segment, j as usize),
            Argument::Other => ScanModel::Absent,
        };
        match here {
            ScanModel::Absent => scan_arguments(args, segment, j + 1, param),
            other => other,
        }
    }
}

proof fn lemma_found_in_segments(p: TypePath, i: int, param: Seq<char>) -> (q: TypePath)
    requires
        0 <= i,
        scan_segments(p, i, param) is Found,
    ensures
        path_at(p, scan_segments(p, i, param)->Found_0) == Some(q),
        q.segments.len() > 0,
        q.segments@[0].ident@ == param,
        !has_phantom(q),
    decreases p, p.segments.len() - i,
{
    let here = match p.segments@[i].arguments {
        Arguments::Absent => ScanModel::Absent,
        Arguments::Parenthesized => ScanModel::Unsupported,
        Arguments::AngleBracketed(args) => scan_arguments(args, i as usize, 0, param),
    };
    if here is Absent {
        lemma_found_in_segments(p, i + 1, param)
    } else {
        let args = p.segments@[i].arguments->AngleBracketed_0;
        let (j, q) = lemma_found_in_arguments(args, i as usize, 0, param);
        let route = scan_segments(p, i, param)->Found_0;
        assert(route[0] == i && route[1] == j);
        q
    }
}

proof fn lemma_found_in_arguments(args: Vec<Argument>, segment: usize, j: int, param: Seq<char>)
    -> (r: (int, TypePath))
    requires
        0 <= j,
        scan_arguments(args, segment, j, param) is Found,
    ensures
        j <= r.0 < args.len(),
        args@[r.0] is Path,
        scan_arguments(args, segment, j, param)->Found_0.len() >= 2,
        scan_arguments(args, segment, j, param)->Found_0[0] == segment,
        scan_arguments(args, segment, j, param)->Found_0[1] == r.0,
        path_at(
            args@[r.0]->Path_0,
            scan_arguments(args, segment, j, param)->Found_0.skip(2),
        ) == Some(r.1),
        r.1.segments.len() > 0,
        r.1.segments@[0].ident@ == param,
        !has_phantom(r.1),
    decreases args, args.len() - j,
{
    let here = match args@[j] {
        Argument::Path(q) => deeper(scan_path(q, param), segment, j as usize),
        Argument::Other => ScanModel::Absent,
    };
    if here is Absent {
        lemma_found_in_arguments(args, segment, j + 1, param)
    } else {
        let inner = args@[j]->Path_0;
        let q = lemma_found(inner, param);
        let route = scan_path(inner, param)->Found_0;
        assert((seq![segment, j as usize] + route).skip(2) =~= route);
        (j, q)
    }
}

/// A route that the scan answers with leads to a path that starts with the parameter
/// and has no `PhantomData` among its segments.
pub proof fn lemma_found(p: TypePath, param: Seq<char>) -> (q: TypePath)
    requires
        scan_path(p, param) is Found,
    ensures
        path_at(p, scan_path(p, param)->Found_0) == Some(q),
        q.segments.len() > 0,
        q.segments@[0].ident@ == param,
        !has_phantom(q),
    decreases p, p.segments.len() + 1,
{
    if p.segments.len() > 0 && p.segments@[0].ident@ == param {
        p
    } else {
        lemma_found_in_segments(p, 0, param)
    }
}

/// The place of the first segment of `path` that is named `name`; `None` where no
/// segment has that name.
pub fn first_segment_named(path: &TypePath, name: &String) -> (r: Option<usize>)
    ensures
        match r {
            Some(k) => {
                &&& k < path.segments.len()
                &&& path.segments@[k as int].ident@ == name@
                &&& forall|i: int| 0 <= i < k ==> path.segments@[i].ident@ != name@
            },
            None => forall|i: int| 0 <= i < path.segments.len() ==> path.segments@[i].ident@ != name@,
        },
{
    let mut k: usize = 0;
    while k < path.segments.len()
        invariant
            k <= path.segments.len(),
            forall|i: int| 0 <= i < k ==> path.segments@[i].ident@ != name@,
        decreases path.segments.len() - k,
    {
        if path.segments[k].ident == *name {
            return Some(k);
        }
        k += 1;
    }
    None
}

/// The path that the route leads to from `p`; `None` where the route leaves the tree.
pub open spec fn path_at(p: TypePath, route: Seq<usize>) -> Option<TypePath>
    decreases route.len(),
{
    if route.len() == 0 {
        Some(p)
    } else if route.len() >= 2 && route[0] < p.segments.len() {
        match p.segments@[route[0] as int].arguments {
            Arguments::AngleBracketed(args) => if route[1] < args.len() {
                match args@[route[1] as int] {
                    Argument::Path(inner) => path_at(inner, route.skip(2)),
                    Argument::Other => None,
                }
            } else {
                None
            },
            _ => None,
        }
    } else {
        None
    }
}

/// Where the bound for a found parameter goes.
#[derive(Clone, Copy, Debug, PartialEq, Eq, Structural)]
pub enum BoundTarget {
    /// On the parameter itself: the path that names it is the parameter alone.
    Parameter,
    /// On the whole path in a `where` clause: the path goes on behind the parameter, as
    /// in `T::Value`.
    AssociatedType,
}

/// Where the bound goes for a found path `q`.
pub open spec fn target_of(q: TypePath) -> BoundTarget {
    if q.segments.len() > 1 {
        BoundTarget::AssociatedType
    } else {
        BoundTarget::Parameter
    }
}

/// Decides where the bound goes for the path that `route` leads to from `path`: on the
/// parameter where that path has one segment, on the whole path where it has more.
/// `None` where the route leaves the tree.
pub fn bound_target(path: &TypePath, route: &Vec<usize>) -> (r: Option<BoundTarget>)
    ensures
        r == match path_at(*path, route@) {
            Some(q) => Some(target_of(q)),
            None => None,
        },
{
    let mut at: &TypePath = path;
    let mut k: usize = 0;
    assert(route@.skip(0) =~= route@);
    while k < route.len()
        invariant
            k <= route.len(),
            path_at(*path, route@) == path_at(*at, route@.skip(k as int)),
        decreases route.len() - k,
    {
        let ghost rest = route@.skip(k as int);
        if route.len() - k < 2 {
            return None;
        }
        let segment = route[k];
        let argument = route[k + 1];
        assert(rest[0] == segment && rest[1] == argument);
        assert(rest.skip(2) =~= route@.skip(k + 2));
        if segment >= at.segments.len() {
            return None;
        }
        match &at.segments[segment].arguments {
            Arguments::AngleBracketed(args) => {
                if argument >= args.len() {
                    return None;
                }
                match &args[argument] {
                    Argument::Path(inner) => {
                        at = inner;
                    },
                    Argument::Other => {
                        return None;
                    },
                }
            },
            _ => {
                return None;
            },
        }
        k += 2;
    }
    if at.segments.len() > 1 {
        Some(BoundTarget::AssociatedType)
    } else {
        Some(BoundTarget::Parameter)
    }
}

/// Whether some segment of `path` is the marker type.
fn names_phantom(path: &TypePath) -> (b: bool)
    ensures
        b == has_phantom(*path),
{
    let marker = String::from_str("PhantomData");
    let mut i: usize = 0;
    while i < path.segments.len()
        invariant
            i <= path.segments.len(),
            marker@ == phantom(),
            has_phantom(*path) == has_phantom_from(*path, i as int),
        decreases path.segments.len() - i,
    {
        if path.segments[i].ident == marker {
            return true;
        }
        i += 1;
    }
    false
}

/// Puts the steps `segment` and `argument` in front of a found route.
fn step_into(found: Scan, segment: usize, argument: usize) -> (r: Scan)
    ensures
        r@ == deeper(found@, segment, argument),
{
    match found {
        Scan::Found(route) => {
            let mut route = route;
            let mut longer: Vec<usize> = Vec::new();
            longer.push(segment);
            longer.push(argument);
            let ghost tail = route@;
            longer.append(&mut route);
            assert(longer@ =~= seq![segment, argument] + tail);
            Scan::Found(longer)
        },
        Scan::Absent => Scan::Absent,
        Scan::Unsupported => Scan::Unsupported,
    }
}

/// Scans the arguments of segment `segment` of some path.
fn find_in_arguments(args: &Vec<Argument>, segment: usize, param: &String) -> (r: Scan)
    ensures
        r@ == scan_arguments(*args, segment, 0, param@),
    decreases args, 0nat,
{
    let mut j: usize = 0;
    while j < args.len()
        invariant
            j <= args.len(),
            scan_arguments(*args, segment, 0, param@) == scan_arguments(
                *args,
                segment,
                j as int,
                param@,
            ),
        decreases args.len() - j,
    {
        match &args[j] {
            Argument::Path(q) => {
                let found = step_into(find_parameter(q, param), segment, j);
                match found {
                    Scan::Absent => {},
                    other => {
                        return other;
                    },
                }
            },
            Argument::Other => {},
        }
        j += 1;
    }
    Scan::Absent
}

/// Looks for the type parameter `param` in the type `path`.
///
/// A path with `PhantomData` among its segments is not looked into. A path that starts
/// with the parameter is found, with the route that leads to it from `path`. Otherwise
/// the path arguments in angle brackets are looked into, in order; arguments in
/// parentheses stop the scan as unsupported.
pub fn find_parameter(path: &TypePath, param: &String) -> (r: Scan)
    ensures
        r@ == scan_path(*path, param@),
    decreases path, 1nat,
{
    if names_phantom(path) {
        return Scan::Absent;
    }
    if path.segments.len() > 0 && path.segments[0].ident == *param {
        return Scan::Found(Vec::new());
    }
    let mut i: usize = 0;
    while i < path.segments.len()
        invariant
            i <= path.segments.len(),
            scan_path(*path, param@) == scan_segments(*path, i as int, param@),
        decreases path.segments.len() - i,
    {
        match &path.segments[i].arguments {
            Arguments::Absent => {},
            Arguments::Parenthesized => {
                return Scan::Unsupported;
            },
            Arguments::AngleBracketed(args) => {
                let found = find_in_arguments(args, i, param);
                match found {
                    Scan::Absent => {},
                    other => {
                        return other;
                    },
                }
            },
        }
        i += 1;
    }
    Scan::Absent
}

} // verus!
