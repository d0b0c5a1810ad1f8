//! The names a composite authenticator gives its parts: its name must be a single identifier
//! with the authority type as its one generic argument; each authenticator it is made of
//! becomes a variant named after the authenticator's path, in upper camel case (the segments
//! of the path, each split at its underscores, every piece with its first letter in upper
//! case, all joined), and the composite's types are its name followed by what they are.

use vstd::prelude::*;
use vstd::string::StrSliceExecFns;

verus! {

/// A generic argument of the composite's name, as the macro's parser reads it.
#[derive(Clone, Copy, Debug, PartialEq, Eq, Structural)]
pub enum GenericArgumentKind {
    /// A type given by a path: the authority.
    TypePath,
    /// Any other argument: a lifetime, a constant, a type that is not a path, ...
    Other,
}

/// The arguments of the composite's name, as the macro's parser reads them.
#[derive(Clone, Debug, PartialEq, Eq)]
pub enum NameArguments {
    /// No arguments: `Name`.
    Bare,
    /// Arguments in angle brackets: `Name<..>`.
    AngleBracketed(Vec<GenericArgumentKind>),
    /// Arguments in parentheses: `Name(..)`.
    Parenthesized,
}

/// Why the macro refuses the name it is given.
#[derive(Clone, Copy, Debug, PartialEq, Eq, Structural)]
pub enum NameError {
    /// "Expected a name, not a path".
    ExpectedName,
    /// "Expected the authority type to be a well-defined path."
    AuthorityNotAPath,
    /// "A single parameter for the authority type is expected".
    ExpectedSingleParameter,
}

/// What the macro says of the name it is given: a path with a leading `::` (`leading_colon`)
/// or other than one segment is refused; then the name must have exactly one generic
/// argument in angle brackets, and that argument must be a type path (the authority).
pub open spec fn name_check(leading_colon: bool, segments: nat, arguments: NameArguments) -> Result<(), NameError> {
    if leading_colon || segments != 1 {
        Err(NameError::ExpectedName)
    } else {
        match arguments {
            NameArguments::AngleBracketed(args) => if args@.len() == 1 {
                if args@[0] == GenericArgumentKind::TypePath {
                    Ok(())
                } else {
                    Err(NameError::AuthorityNotAPath)
                }
            } else {
                Err(NameError::ExpectedSingleParameter)
            },
            _ => Err(NameError::ExpectedSingleParameter),
        }
    }
}

/// Checks the name the macro is given, as [`name_check`] says.
pub fn check_name(leading_colon: bool, segments: usize, arguments: &NameArguments) -> (r: Result<(), NameError>)
    ensures
        r == name_check(leading_colon, segments as nat, *arguments),
{
    if leading_colon || segments != 1 {
        return Err(NameError::ExpectedName);
    }
    match arguments {
        NameArguments::AngleBracketed(args) => {
            if args.len() == 1 {
                if args[0] == GenericArgumentKind::TypePath {
                    Ok(())
                } else {
                    Err(NameError::AuthorityNotAPath)
                }
            } else {
                Err(NameError::ExpectedSingleParameter)
            }
        },
        _ => Err(NameError::ExpectedSingleParameter),
    }
}

/// What `char::to_uppercase` gives for a character.
pub uninterp spec fn uppercase_of(c: char) -> Seq<char>;

/// Calls `char::to_uppercase` and collects its characters: the uppercase mapping of `c`, a
/// function of `c` alone; an ASCII lowercase letter maps to its capital alone.
#[verifier::external_body]
fn to_uppercase(c: char) -> (r: Vec<char>)
    ensures
        r@ == uppercase_of(c),
        'a' <= c <= 'z' ==> r@ == seq![((c as u32) - 32) as char],
{
    c.to_uppercase().collect()
}

/// The upper camel case of `s`: its underscores dropped, and every character that starts a
/// piece (the first one when `at_start`, and each one after an underscore) in upper case.
pub open spec fn camel_from(s: Seq<char>, at_start: bool) -> Seq<char>
    decreases s.len(),
{
    if s.len() == 0 {
        Seq::empty()
    } else if s[0] == '_' {
        camel_from(s.drop_first(), true)
    } else {
        (if at_start {
            uppercase_of(s[0])
        } else {
            seq![s[0]]
        }) + camel_from(s.drop_first(), false)
    }
}

/// The name of the variant for an authenticator at the path made of `segments`: each segment
/// in upper camel case, joined.
pub open spec fn variant_name_of(segments: Seq<Seq<char>>) -> Seq<char>
    decreases segments.len(),
{
    if segments.len() == 0 {
        Seq::empty()
    } else {
        camel_from(segments[0], true) + variant_name_of(segments.drop_first())
    }
}

/// Appends the characters of `piece`.
fn append_all(out: &mut Vec<char>, piece: &Vec<char>)
    ensures
        final(out)@ == old(out)@ + piece@,
{
    let ghost before = out@;
    let mut j: usize = 0;
    while j < piece.len()
        invariant
            0 <= j <= piece@.len(),
            out@ == before + piece@.take(j as int),
        decreases piece@.len() - j,
    {
        out.push(piece[j]);
        j = j + 1;
        assert(out@ =~= before + piece@.take(j as int));
    }
    assert(piece@.take(piece@.len() as int) =~= piece@);
}

/// A segment of a path in upper camel case.
pub fn camel_case(segment: &Vec<char>) -> (r: Vec<char>)
    ensures
        r@ == camel_from(segment@, true),
{
    let mut out: Vec<char> = Vec::new();
    let mut at_start = true;
    let mut i: usize = 0;
    assert(segment@.skip(0) =~= segment@);
    assert(out@ + camel_from(segment@, true) =~= camel_from(segment@, true));
    while i < segment.len()
        invariant
            0 <= i <= segment@.len(),
            out@ + camel_from(segment@.skip(i as int), at_start) == camel_from(segment@, true),
        decreases segment@.len() - i,
    {
        let c = segment[i];
        let ghost rest = segment@.skip(i as int);
        assert(rest.drop_first() =~= segment@.skip(i + 1));
        if c == '_' {
            at_start = true;
        } else {
            let piece = if at_start {
                to_uppercase(c)
            } else {
                vec![c]
            };
            let ghost before = out@;
            append_all(&mut out, &piece);
            assert(before + (piece@ + camel_from(segment@.skip(i + 1), false)) =~= out@ + camel_from(
                segment@.skip(i + 1),
                false,
            ));
            at_start = false;
        }
        i = i + 1;
    }
    assert(segment@.skip(i as int) =~= Seq::<char>::empty());
    assert(out@ + Seq::<char>::empty() =~= out@);
    out
}

/// The name of the variant for an authenticator at the path made of `segments`.
pub fn variant_name(segments: &Vec<Vec<char>>) -> (r: Vec<char>)
    ensures
        r@ == variant_name_of(segments@.map_values(|s: Vec<char>| s@)),
{
    let ghost all = segments@.map_values(|s: Vec<char>| s@);
    let mut out: Vec<char> = Vec::new();
    let mut i: usize = 0;
    assert(all.skip(0) =~= all);
    assert(out@ + variant_name_of(all) =~= variant_name_of(all));
    while i < segments.len()
        invariant
            0 <= i <= segments@.len(),
            all == segments@.map_values(|s: Vec<char>| s@),
            out@ + variant_name_of(all.skip(i as int)) == variant_name_of(all),
        decreases segments@.len() - i,
    {
        let piece = camel_case(&segments[i]);
        assert(all.skip(i as int).drop_first() =~= all.skip(i + 1));
        assert(all.skip(i as int)[0] == segments@[i as int]@);
        let ghost before = out@;
        append_all(&mut out, &piece);
        assert(before + (piece@ + variant_name_of(all.skip(i + 1))) =~= out@ + variant_name_of(
            all.skip(i + 1),
        ));
        i = i + 1;
    }
    assert(all.skip(i as int) =~= Seq::<Seq<char>>::empty());
    assert(out@ + Seq::<char>::empty() =~= out@);
    out
}

/// The name of one of a composite's types: the composite's name followed by what it is
/// (`Authenticator`, `DeviceAttestation`, `Device` or `Credential`).
pub fn composite_type_name(name: &Vec<char>, suffix: &str) -> (r: Vec<char>)
    ensures
        r@ == name@ + suffix@,
{
    let mut out: Vec<char> = Vec::new();
    append_all(&mut out, name);
    let n = suffix.unicode_len();
    let mut i: usize = 0;
    while i < n
        invariant
            0 <= i <= n,
            n == suffix@.len(),
            out@ == name@ + suffix@.take(i as int),
        decreases n - i,
    {
        out.push(suffix.get_char(i));
        i = i + 1;
        assert(out@ =~= name@ + suffix@.take(i as int));
    }
    assert(suffix@.take(n as int) =~= suffix@);
    out
}

} // verus!
