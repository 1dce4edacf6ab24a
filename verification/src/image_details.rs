//! Classifies a capture image from the tokens of its file name.
//!
//! A name is split on underscores. The first two tokens (folio and shot
//! sequence number) are skipped; an optional single-letter sequence
//! extension `A` through `E` may follow, and the token after that names the
//! processing: a bare illumination (an LED wavelength in nanometers or a
//! named filter code) marks an 8-bit pack image, `color`, `pca` with its
//! flag token, or one of `pseudo`, `sharpie` and `csharpie` followed by a
//! dash-separated illumination list. A malformed name is rejected with an
//! error naming the offending token position.

use vstd::prelude::*;
use vstd::string::StringSliceAdditionalSpecFns;

verus! {

/// What kind of derived image the name denotes.
#[derive(Clone, Copy, PartialEq, Eq, Structural, Debug)]
pub enum ImageType {
    /// An 8-bit version of the raw capture image.
    Pack8,
    /// A pseudo-color image.
    Pseudo,
    /// A monochrome image that strips the over text away.
    Sharpie,
    /// A color sharpie built from the three ultraviolet color-filter shots.
    CSharpie,
    /// An image derived from a principal component analysis.
    PCA(PCAFlag),
    /// A color image generated from five visible-light shots.
    Color,
}

/// One channel of a principal-component-analysis color flag: the component
/// number and whether it is inverted.
#[derive(Clone, Copy, PartialEq, Eq, Structural, Debug)]
pub struct PcaChannel {
    pub inverted: bool,
    pub value: u8,
}

/// The payload of a principal-component-analysis image: a single component
/// number, or three per-channel components each with an inversion flag.
#[derive(Clone, Copy, PartialEq, Eq, Structural, Debug)]
pub enum PCAFlag {
    C(u8),
    RGB(PcaChannel, PcaChannel, PcaChannel),
}

/// The illumination under which a shot was taken.
#[derive(Clone, Copy, PartialEq, Eq, Structural, Debug)]
pub enum ImageIllumination {
    /// An LED of the given wavelength in nanometers.
    LED(u16),
    /// Raking infrared from the right.
    RAIR,
    /// Raking blue from the right.
    RABR,
    /// Raking infrared from the left.
    RAIL,
    /// Raking blue from the left.
    RABL,
    /// Ultraviolet with red color filter.
    CFUR,
    /// Ultraviolet with green color filter.
    CFUG,
    /// Ultraviolet with blue color filter.
    CFUB,
    /// Blue with red color filter.
    CFBR,
    /// Blue with green color filter.
    CFBG,
    /// Blue with blue color filter.
    CFBB,
    /// The three color-filter ultraviolet shots in combination.
    CFUX,
}

/// Why a name could not be classified, by the token that fails.
#[derive(Clone, Copy, PartialEq, Eq, Structural, Debug)]
pub enum NameError {
    /// The shot sequence number token is missing.
    MissingSequence,
    /// The processing token is missing.
    MissingProcessing,
    /// `pca` is not followed by its flag token.
    MissingPcaFlag,
    /// The `pca` flag token does not parse.
    MalformedPcaFlag,
    /// The illumination list token is missing.
    MissingIllumination,
    /// The processing token names no known processing.
    UnknownProcessing,
}

/// A classified name: the image kind and the illuminations it names.
#[derive(Debug)]
pub struct ImageDetails {
    pub image_type: ImageType,
    pub illumination: Vec<ImageIllumination>,
}

/// The mathematical shape of a classified name.
pub ghost struct DetailsView {
    pub image_type: ImageType,
    pub illumination: Seq<ImageIllumination>,
}

impl View for ImageDetails {
    type V = DetailsView;

    open spec fn view(&self) -> DetailsView {
        DetailsView { image_type: self.image_type, illumination: self.illumination@ }
    }
}

/// The index of the first occurrence of `sep` in `s`, or -1.
pub open spec fn find_sep(s: Seq<u8>, sep: u8) -> int
    decreases s.len(),
{
    if s.len() == 0 {
        -1
    } else if s[0] == sep {
        0
    } else {
        let r = find_sep(s.skip(1), sep);
        if r < 0 {
            -1
        } else {
            r + 1
        }
    }
}

/// `find_sep` returns -1 exactly when `sep` does not occur, and otherwise
/// the first index holding it.
pub proof fn lemma_find_sep(s: Seq<u8>, sep: u8)
    ensures
        find_sep(s, sep) == -1 ==> forall|j: int| 0 <= j < s.len() ==> s[j] != sep,
        find_sep(s, sep) != -1 ==> {
            let i = find_sep(s, sep);
            &&& 0 <= i < s.len()
            &&& s[i] == sep
            &&& forall|j: int| 0 <= j < i ==> s[j] != sep
        },
    decreases s.len(),
{
    if s.len() > 0 && s[0] != sep {
        lemma_find_sep(s.skip(1), sep);
        let r = find_sep(s.skip(1), sep);
        if r == -1 {
            assert forall|j: int| 0 <= j < s.len() implies s[j] != sep by {
                if j > 0 {
                    assert(s.skip(1)[j - 1] == s[j]);
                }
            }
        } else {
            assert(s[r + 1] == s.skip(1)[r]);
            assert forall|j: int| 0 <= j < r + 1 implies s[j] != sep by {
                if j > 0 {
                    assert(s.skip(1)[j - 1] == s[j]);
                }
            }
        }
    }
}

/// Splits `s` at every occurrence of `sep`. Splitting the empty sequence
/// yields one empty token, as splitting a string does.
pub open spec fn split_bytes(s: Seq<u8>, sep: u8) -> Seq<Seq<u8>>
    decreases s.len(),
{
    let i = find_sep(s, sep);
    if i < 0 || i >= s.len() {
        seq![s]
    } else {
        seq![s.take(i)] + split_bytes(s.skip(i + 1), sep)
    }
}

/// A separator-free sequence splits into itself alone.
pub proof fn lemma_split_no_sep(t: Seq<u8>, sep: u8)
    requires
        forall|j: int| 0 <= j < t.len() ==> t[j] != sep,
    ensures
        split_bytes(t, sep) == seq![t],
{
    lemma_find_sep(t, sep);
    if find_sep(t, sep) != -1 {
        assert(t[find_sep(t, sep)] == sep);
        assert(false);
    }
}

/// Splitting at the first separator peels off the separator-free prefix.
pub proof fn lemma_split_at_sep(a: Seq<u8>, b: Seq<u8>, sep: u8)
    requires
        forall|j: int| 0 <= j < a.len() ==> a[j] != sep,
    ensures
        split_bytes(a + seq![sep] + b, sep) == seq![a] + split_bytes(b, sep),
{
    let s = a + seq![sep] + b;
    assert(s[a.len() as int] == sep);
    assert forall|j: int| 0 <= j < a.len() implies s[j] != sep by {
        assert(s[j] == a[j]);
    }
    lemma_find_sep(s, sep);
    let i = find_sep(s, sep);
    if i == -1 {
        assert(s[a.len() as int] == sep);
        assert(false);
    }
    assert(i <= a.len());
    if i < a.len() {
        assert(s[i] == a[i]);
        assert(false);
    }
    assert(i == a.len());
    assert(s.take(i) =~= a);
    assert(s.skip(i + 1) =~= b);
    assert(split_bytes(s, sep) == seq![a] + split_bytes(b, sep));
}

/// The numeric value of a digit sequence, most significant first.
pub open spec fn digits_val(t: Seq<u8>) -> int
    decreases t.len(),
{
    if t.len() == 0 {
        0
    } else {
        digits_val(t.drop_last()) * 10 + (t.last() - 48)
    }
}

/// Whether every byte of `t` is an ASCII digit.
pub open spec fn all_digits(t: Seq<u8>) -> bool {
    forall|j: int| 0 <= j < t.len() ==> 48 <= #[trigger] t[j] <= 57
}

/// The value of a digit sequence is never negative.
pub proof fn lemma_digits_val_nonneg(t: Seq<u8>)
    requires
        all_digits(t),
    ensures
        digits_val(t) >= 0,
    decreases t.len(),
{
    if t.len() > 0 {
        assert(all_digits(t.drop_last()));
        lemma_digits_val_nonneg(t.drop_last());
        assert(digits_val(t.drop_last()) * 10 >= 0) by (nonlinear_arith)
            requires
                digits_val(t.drop_last()) >= 0,
        ;
    }
}

/// The numeric reading of an unsigned decimal token: an optional leading
/// plus sign (byte 43), then at least one digit. Yields -1 for anything
/// else.
pub open spec fn parse_uint(t: Seq<u8>) -> int {
    let body = if t.len() >= 1 && t[0] == 43 {
        t.skip(1)
    } else {
        t
    };
    if body.len() >= 1 && all_digits(body) {
        digits_val(body)
    } else {
        -1
    }
}

/// A four-byte token.
pub open spec fn b4(a: u8, b: u8, c: u8, d: u8) -> Seq<u8> {
    seq![a, b, c, d]
}

/// The illumination a token names: a wavelength that fits sixteen bits, or
/// one of the named filter codes.
pub open spec fn illum_of(t: Seq<u8>) -> Option<ImageIllumination> {
    if 0 <= parse_uint(t) <= 65535 {
        Some(ImageIllumination::LED(parse_uint(t) as u16))
    } else if t == b4(82, 65, 73, 82) {
        Some(ImageIllumination::RAIR)
    } else if t == b4(82, 65, 66, 82) {
        Some(ImageIllumination::RABR)
    } else if t == b4(82, 65, 73, 76) {
        Some(ImageIllumination::RAIL)
    } else if t == b4(82, 65, 66, 76) {
        Some(ImageIllumination::RABL)
    } else if t == b4(67, 70, 85, 82) {
        Some(ImageIllumination::CFUR)
    } else if t == b4(67, 70, 85, 71) {
        Some(ImageIllumination::CFUG)
    } else if t == b4(67, 70, 85, 66) {
        Some(ImageIllumination::CFUB)
    } else if t == b4(67, 70, 66, 82) {
        Some(ImageIllumination::CFBR)
    } else if t == b4(67, 70, 66, 71) {
        Some(ImageIllumination::CFBG)
    } else if t == b4(67, 70, 66, 66) {
        Some(ImageIllumination::CFBB)
    } else if t == b4(67, 70, 85, 88) {
        Some(ImageIllumination::CFUX)
    } else {
        None
    }
}

/// The illuminations named by a dash-separated list's parts, in order;
/// parts that name no illumination are dropped.
pub open spec fn illums_of(parts: Seq<Seq<u8>>) -> Seq<ImageIllumination>
    decreases parts.len(),
{
    if parts.len() == 0 {
        Seq::empty()
    } else {
        let rest = illums_of(parts.drop_last());
        match illum_of(parts.last()) {
            Some(x) => rest + seq![x],
            None => rest,
        }
    }
}

/// The token stripped of every leading `C` (byte 67).
pub open spec fn strip_c(t: Seq<u8>) -> Seq<u8>
    decreases t.len(),
{
    if t.len() >= 1 && t[0] == 67 {
        strip_c(t.skip(1))
    } else {
        t
    }
}

/// The token stripped of every leading `inv` (bytes 105, 110, 118).
pub open spec fn strip_inv(t: Seq<u8>) -> Seq<u8>
    decreases t.len(),
{
    if t.len() >= 3 && t[0] == 105 && t[1] == 110 && t[2] == 118 {
        strip_inv(t.skip(3))
    } else {
        t
    }
}

/// Whether the token begins with `inv`.
pub open spec fn starts_inv(t: Seq<u8>) -> bool {
    t.len() >= 3 && t[0] == 105 && t[1] == 110 && t[2] == 118
}

/// Whether the token is a single-letter sequence extension `A` through `E`
/// (bytes 65 through 69).
pub open spec fn is_seq_ext(t: Seq<u8>) -> bool {
    t.len() == 1 && 65 <= t[0] <= 69
}

/// One component of a `pca` color flag: its inversion mark and value, or
/// None if the digits do not read as a byte.
pub open spec fn pca_component(t: Seq<u8>) -> Option<PcaChannel> {
    let v = parse_uint(strip_inv(t));
    if 0 <= v <= 255 {
        Some(PcaChannel { inverted: starts_inv(t), value: v as u8 })
    } else {
        None
    }
}

/// The classification of a file name's bytes, or the error naming the
/// token that fails. The decision order follows the name grammar: after
/// the two skipped tokens and the optional sequence extension, the
/// processing token is read first as a bare illumination, then as `color`,
/// `pca`, `pseudo`, `sharpie` or `csharpie`.
pub open spec fn parse_name(s: Seq<u8>) -> Result<DetailsView, NameError> {
    let toks = split_bytes(s, 95);  // '_'
    if toks.len() < 2 {
        Err(NameError::MissingSequence)
    } else if toks.len() < 3 {
        Err(NameError::MissingProcessing)
    } else if is_seq_ext(toks[2]) && toks.len() < 4 {
        Err(NameError::MissingProcessing)
    } else {
        let pi: int = if is_seq_ext(toks[2]) {
            3
        } else {
            2
        };
        let ptok = toks[pi];
        if illum_of(ptok) is Some {
            Ok(
                DetailsView {
                    image_type: ImageType::Pack8,
                    illumination: seq![illum_of(ptok).unwrap()],
                },
            )
        } else if ptok == seq![99u8, 111, 108, 111, 114] {  // "color"
            Ok(DetailsView { image_type: ImageType::Color, illumination: Seq::empty() })
        } else if ptok == seq![112u8, 99, 97] {  // "pca"
            if toks.len() <= pi + 1 {
                Err(NameError::MissingPcaFlag)
            } else {
                let flag = toks[pi + 1];
                if flag.len() == 2 {
                    let v = parse_uint(strip_c(flag));
                    if 0 <= v <= 255 {
                        Ok(
                            DetailsView {
                                image_type: ImageType::PCA(PCAFlag::C(v as u8)),
                                illumination: Seq::empty(),
                            },
                        )
                    } else {
                        Err(NameError::MalformedPcaFlag)
                    }
                } else {
                    let comps = split_bytes(flag, 45);  // '-'
                    if comps.len() < 4 {
                        Err(NameError::MalformedPcaFlag)
                    } else {
                        match (pca_component(comps[1]), pca_component(comps[2]), pca_component(
                            comps[3],
                        )) {
                            (Some(r), Some(g), Some(b)) => Ok(
                                DetailsView {
                                    image_type: ImageType::PCA(PCAFlag::RGB(r, g, b)),
                                    illumination: Seq::empty(),
                                },
                            ),
                            _ => Err(NameError::MalformedPcaFlag),
                        }
                    }
                }
            }
        } else if ptok == seq![112u8, 115, 101, 117, 100, 111]  // "pseudo"
         || ptok == seq![115u8, 104, 97, 114, 112, 105, 101]  // "sharpie"
         || ptok == seq![99u8, 115, 104, 97, 114, 112, 105, 101] {  // "csharpie"

            if toks.len() <= pi + 1 {
                Err(NameError::MissingIllumination)
            } else {
                let ty = if ptok == seq![112u8, 115, 101, 117, 100, 111] {  // "pseudo"
                    ImageType::Pseudo
                } else if ptok == seq![115u8, 104, 97, 114, 112, 105, 101] {  // "sharpie"
                    ImageType::Sharpie
                } else {
                    ImageType::CSharpie
                };
                Ok(
                    DetailsView {
                        image_type: ty,
                        illumination: illums_of(split_bytes(toks[pi + 1], 45)),  // '-'
                    },
                )
            }
        } else {
            Err(NameError::UnknownProcessing)
        }
    }
}

/// The byte views of a list of tokens.
pub open spec fn token_views(toks: Seq<Vec<u8>>) -> Seq<Seq<u8>> {
    toks.map_values(|v: Vec<u8>| v@)
}

/// Splits a byte slice at every occurrence of `sep`, as `split_bytes`
/// specifies.
fn split_bytes_exec(s: &[u8], sep: u8) -> (toks: Vec<Vec<u8>>)
    ensures
        token_views(toks@) == split_bytes(s@, sep),
{
    let len = s.len();
    let mut toks: Vec<Vec<u8>> = Vec::new();
    let mut start: usize = 0;
    let mut j: usize = 0;
    proof {
        assert(token_views(toks@) =~= Seq::<Seq<u8>>::empty());
        assert(s@.skip(0) =~= s@);
        assert(token_views(toks@) + split_bytes(s@, sep) =~= split_bytes(s@, sep));
    }
    while j < len
        invariant
            len == s@.len(),
            start <= j <= len,
            forall|m: int| start <= m < j ==> s@[m] != sep,
            split_bytes(s@, sep) == token_views(toks@) + split_bytes(s@.skip(start as int), sep),
        decreases len - j,
    {
        if s[j] == sep {
            let tok = vstd::slice::slice_to_vec(&s[start..j]);
            proof {
                let a = s@.subrange(start as int, j as int);
                assert(s@.skip(start as int) =~= a + seq![sep] + s@.skip(j + 1));
                lemma_split_at_sep(a, s@.skip(j + 1), sep);
                assert(token_views(toks@.push(tok)) =~= token_views(toks@) + seq![a]);
                assert((token_views(toks@) + seq![a]) + split_bytes(s@.skip(j + 1), sep)
                    =~= token_views(toks@) + (seq![a] + split_bytes(s@.skip(j + 1), sep)));
            }
            toks.push(tok);
            start = j + 1;
        }
        j = j + 1;
    }
    let tok = vstd::slice::slice_to_vec(&s[start..len]);
    proof {
        let a = s@.subrange(start as int, len as int);
        assert(s@.skip(start as int) =~= a);
        lemma_split_no_sep(a, sep);
        assert(token_views(toks@.push(tok)) =~= token_views(toks@) + seq![a]);
        assert(token_views(toks@) + seq![a] =~= split_bytes(s@, sep));
    }
    toks.push(tok);
    toks
}

/// Reads an unsigned decimal token, yielding its value when it fits
/// sixteen bits and -1 otherwise (including every malformed token).
fn parse_uint_capped(t: &[u8]) -> (r: i64)
    ensures
        r == if 0 <= parse_uint(t@) <= 65535 {
            parse_uint(t@)
        } else {
            -1
        },
{
    let len = t.len();
    let start: usize = if len >= 1 && t[0] == 43 {
        1
    } else {
        0
    };
    let ghost body: Seq<u8> = if t@.len() >= 1 && t@[0] == 43 {
        t@.skip(1)
    } else {
        t@
    };
    proof {
        assert(body =~= t@.subrange(start as int, len as int));
    }
    if start == len {
        return -1;
    }
    let mut acc: u32 = 0;
    let mut i: usize = start;
    while i < len
        invariant
            len == t@.len(),
            start <= i <= len,
            start < len,
            body == t@.subrange(start as int, len as int),
            body == (if t@.len() >= 1 && t@[0] == 43 {
                t@.skip(1)
            } else {
                t@
            }),
            forall|m: int| 0 <= m < i - start ==> 48 <= #[trigger] body[m] <= 57,
            acc == if digits_val(body.take(i - start)) <= 65536 {
                digits_val(body.take(i - start))
            } else {
                65536
            },
            acc <= 65536,
        decreases len - i,
    {
        let d = t[i];
        if d < 48 || d > 57 {
            proof {
                assert(body[i - start] == t@[i as int]);
                assert(!(48 <= body[i - start] <= 57));
                assert(!all_digits(body));
            }
            return -1;
        }
        proof {
            let m = i - start;
            let pre = body.take(m);
            assert(body.take(m + 1).drop_last() =~= pre);
            assert(body.take(m + 1).last() == body[m]);
            assert(body[m] == t@[i as int]);
            assert(digits_val(body.take(m + 1)) == digits_val(pre) * 10 + (body[m] - 48));
            assert(all_digits(pre));
            lemma_digits_val_nonneg(pre);
            assert(digits_val(pre) * 10 >= digits_val(pre)) by (nonlinear_arith)
                requires
                    digits_val(pre) >= 0,
            ;
            if digits_val(pre) <= 65536 {
                assert(digits_val(pre) * 10 == acc * 10);
            }
        }
        let v = acc * 10 + (d - 48) as u32;
        acc = if v > 65536 {
            65536
        } else {
            v
        };
        i = i + 1;
    }
    proof {
        assert(body.take(len - start) =~= body);
        assert(all_digits(body));
        assert(body.len() >= 1);
        assert(parse_uint(t@) == digits_val(body));
        lemma_digits_val_nonneg(body);
    }
    if acc <= 65535 {
        acc as i64
    } else {
        -1
    }
}

/// Strips every leading `C` from a token.
fn strip_c_vec(t: &[u8]) -> (v: Vec<u8>)
    ensures
        v@ == strip_c(t@),
{
    let len = t.len();
    let mut i: usize = 0;
    proof {
        assert(t@.skip(0) =~= t@);
    }
    while i < len && t[i] == 67
        invariant
            len == t@.len(),
            i <= len,
            strip_c(t@) == strip_c(t@.skip(i as int)),
        decreases len - i,
    {
        proof {
            assert(t@.skip(i as int)[0] == t@[i as int]);
            assert(t@.skip(i as int).skip(1) =~= t@.skip(i + 1));
        }
        i = i + 1;
    }
    proof {
        assert(strip_c(t@.skip(i as int)) == t@.skip(i as int));
    }
    let v = vstd::slice::slice_to_vec(&t[i..len]);
    proof {
        assert(t@.subrange(i as int, len as int) =~= t@.skip(i as int));
    }
    v
}

/// Strips every leading `inv` from a token.
fn strip_inv_vec(t: &[u8]) -> (v: Vec<u8>)
    ensures
        v@ == strip_inv(t@),
{
    let len = t.len();
    let mut i: usize = 0;
    proof {
        assert(t@.skip(0) =~= t@);
    }
    while i < len && len - i >= 3 && t[i] == 105 && t[i + 1] == 110 && t[i + 2] == 118
        invariant
            len == t@.len(),
            i <= len,
            strip_inv(t@) == strip_inv(t@.skip(i as int)),
        decreases len - i,
    {
        proof {
            assert(t@.skip(i as int)[0] == t@[i as int]);
            assert(t@.skip(i as int)[1] == t@[i + 1]);
            assert(t@.skip(i as int)[2] == t@[i + 2]);
            assert(t@.skip(i as int).skip(3) =~= t@.skip(i + 3));
        }
        i = i + 3;
    }
    proof {
        let rest = t@.skip(i as int);
        assert(rest.len() >= 3 ==> !(rest[0] == 105 && rest[1] == 110 && rest[2] == 118)) by {
            if rest.len() >= 3 {
                assert(rest[0] == t@[i as int]);
                assert(rest[1] == t@[i + 1]);
                assert(rest[2] == t@[i + 2]);
            }
        }
        assert(strip_inv(rest) == rest);
    }
    let v = vstd::slice::slice_to_vec(&t[i..len]);
    proof {
        assert(t@.subrange(i as int, len as int) =~= t@.skip(i as int));
    }
    v
}

/// Whether the token equals the given four bytes.
fn eq4(t: &[u8], a: u8, b: u8, c: u8, d: u8) -> (r: bool)
    ensures
        r <==> t@ == b4(a, b, c, d),
{
    let r = t.len() == 4 && t[0] == a && t[1] == b && t[2] == c && t[3] == d;
    proof {
        if r {
            assert(t@ =~= b4(a, b, c, d));
        }
    }
    r
}

/// Whether the token begins with `inv`.
fn starts_inv_exec(t: &[u8]) -> (r: bool)
    ensures
        r == starts_inv(t@),
{
    t.len() >= 3 && t[0] == 105 && t[1] == 110 && t[2] == 118
}

/// Whether the token is a single-letter sequence extension.
fn is_seq_ext_exec(t: &[u8]) -> (r: bool)
    ensures
        r == is_seq_ext(t@),
{
    t.len() == 1 && t[0] >= 65 && t[0] <= 69
}

impl ImageIllumination {
    /// Reads an illumination token: a wavelength that fits sixteen bits,
    /// or one of the named filter codes.
    pub fn from(string: &str) -> (r: Option<ImageIllumination>)
        ensures
            r == illum_of(string.spec_bytes()),
    {
        illum_from_bytes(string.as_bytes())
    }
}

/// Reads an illumination token from its bytes, as `illum_of` specifies.
fn illum_from_bytes(t: &[u8]) -> (r: Option<ImageIllumination>)
    ensures
        r == illum_of(t@),
{
    let v = parse_uint_capped(t);
    if v >= 0 {
        Some(ImageIllumination::LED(v as u16))
    } else if eq4(t, 82, 65, 73, 82) {
        Some(ImageIllumination::RAIR)
    } else if eq4(t, 82, 65, 66, 82) {
        Some(ImageIllumination::RABR)
    } else if eq4(t, 82, 65, 73, 76) {
        Some(ImageIllumination::RAIL)
    } else if eq4(t, 82, 65, 66, 76) {
        Some(ImageIllumination::RABL)
    } else if eq4(t, 67, 70, 85, 82) {
        Some(ImageIllumination::CFUR)
    } else if eq4(t, 67, 70, 85, 71) {
        Some(ImageIllumination::CFUG)
    } else if eq4(t, 67, 70, 85, 66) {
        Some(ImageIllumination::CFUB)
    } else if eq4(t, 67, 70, 66, 82) {
        Some(ImageIllumination::CFBR)
    } else if eq4(t, 67, 70, 66, 71) {
        Some(ImageIllumination::CFBG)
    } else if eq4(t, 67, 70, 66, 66) {
        Some(ImageIllumination::CFBB)
    } else if eq4(t, 67, 70, 85, 88) {
        Some(ImageIllumination::CFUX)
    } else {
        None
    }
}

/// Collects the illuminations named by a token list, as `illums_of`
/// specifies.
fn illums_from(parts: &Vec<Vec<u8>>) -> (r: Vec<ImageIllumination>)
    ensures
        r@ == illums_of(token_views(parts@)),
{
    let ghost views = token_views(parts@);
    let n = parts.len();
    let mut r: Vec<ImageIllumination> = Vec::new();
    let mut i: usize = 0;
    while i < n
        invariant
            n == parts@.len(),
            views == token_views(parts@),
            i <= n,
            r@ == illums_of(views.take(i as int)),
        decreases n - i,
    {
        proof {
            assert(views.take(i + 1).drop_last() =~= views.take(i as int));
            assert(views.take(i + 1).last() == views[i as int]);
            assert(views[i as int] == parts@[i as int]@);
        }
        match illum_from_bytes(parts[i].as_slice()) {
            Some(x) => {
                r.push(x);
                proof {
                    assert(r@ =~= illums_of(views.take(i as int)) + seq![x]);
                }
            },
            None => {},
        }
        i = i + 1;
    }
    proof {
        assert(views.take(n as int) =~= views);
    }
    r
}

/// One component of a `pca` color flag, as `pca_component` specifies.
fn pca_component_exec(t: &[u8]) -> (r: Option<PcaChannel>)
    ensures
        r == pca_component(t@),
{
    let stripped = strip_inv_vec(t);
    let v = parse_uint_capped(stripped.as_slice());
    if v >= 0 && v <= 255 {
        Some(PcaChannel { inverted: starts_inv_exec(t), value: v as u8 })
    } else {
        None
    }
}

/// Classifies a file name given as bytes, as `parse_name` specifies.
pub fn parse_details(name: &[u8]) -> (r: Result<ImageDetails, NameError>)
    ensures
        r is Ok <==> parse_name(name@) is Ok,
        r matches Ok(v) ==> parse_name(name@) matches Ok(d) && v@ == d,
        r matches Err(e) ==> parse_name(name@) matches Err(d) && d == e,
{
    let toks = split_bytes_exec(name, 95);  // '_'
    let ghost stoks = split_bytes(name@, 95);  // '_'
    if toks.len() < 2 {
        return Err(NameError::MissingSequence);
    }
    if toks.len() < 3 {
        return Err(NameError::MissingProcessing);
    }
    let ext = is_seq_ext_exec(toks[2].as_slice());
    if ext && toks.len() < 4 {
        return Err(NameError::MissingProcessing);
    }
    let pi: usize = if ext {
        3
    } else {
        2
    };
    proof {
        assert(stoks[pi as int] == toks@[pi as int]@);
    }
    match illum_from_bytes(toks[pi].as_slice()) {
        Some(il) => {
            let mut illumination: Vec<ImageIllumination> = Vec::new();
            illumination.push(il);
            proof {
                assert(illumination@ =~= seq![il]);
            }
            return Ok(ImageDetails { image_type: ImageType::Pack8, illumination });
        },
        None => {},
    }
    let p = &toks[pi];
    if p.len() == 5 && p[0] == 99 && p[1] == 111 && p[2] == 108 && p[3] == 111 && p[4] == 114 {
        proof {
            assert(stoks[pi as int] =~= seq![99u8, 111, 108, 111, 114]);
        }
        return Ok(ImageDetails { image_type: ImageType::Color, illumination: Vec::new() });
    }
    if p.len() == 3 && p[0] == 112 && p[1] == 99 && p[2] == 97 {
        proof {
            assert(stoks[pi as int] =~= seq![112u8, 99, 97]);
        }
        if toks.len() <= pi + 1 {
            return Err(NameError::MissingPcaFlag);
        }
        proof {
            assert(stoks[pi + 1] == toks@[pi + 1]@);
        }
        let flag = &toks[pi + 1];
        if flag.len() == 2 {
            let sc = strip_c_vec(flag.as_slice());
            let v = parse_uint_capped(sc.as_slice());
            if v >= 0 && v <= 255 {
                return Ok(
                    ImageDetails {
                        image_type: ImageType::PCA(PCAFlag::C(v as u8)),
                        illumination: Vec::new(),
                    },
                );
            }
            return Err(NameError::MalformedPcaFlag);
        }
        let comps = split_bytes_exec(flag.as_slice(), 45);  // '-'
        let ghost scomps = split_bytes(flag@, 45);  // '-'
        if comps.len() < 4 {
            return Err(NameError::MalformedPcaFlag);
        }
        proof {
            assert(scomps[1] == comps@[1]@);
            assert(scomps[2] == comps@[2]@);
            assert(scomps[3] == comps@[3]@);
        }
        let cr = pca_component_exec(comps[1].as_slice());
        let cg = pca_component_exec(comps[2].as_slice());
        let cb = pca_component_exec(comps[3].as_slice());
        match (cr, cg, cb) {
            (Some(r), Some(g), Some(b)) => {
                return Ok(
                    ImageDetails {
                        image_type: ImageType::PCA(PCAFlag::RGB(r, g, b)),
                        illumination: Vec::new(),
                    },
                );
            },
            _ => {
                return Err(NameError::MalformedPcaFlag);
            },
        }
    }
    let pseudo = p.len() == 6 && p[0] == 112 && p[1] == 115 && p[2] == 101 && p[3] == 117 && p[4]
        == 100 && p[5] == 111;
    let sharpie = p.len() == 7 && p[0] == 115 && p[1] == 104 && p[2] == 97 && p[3] == 114 && p[4]
        == 112 && p[5] == 105 && p[6] == 101;
    let csharpie = p.len() == 8 && p[0] == 99 && p[1] == 115 && p[2] == 104 && p[3] == 97 && p[4]
        == 114 && p[5] == 112 && p[6] == 105 && p[7] == 101;
    proof {
        if pseudo {
            assert(stoks[pi as int] =~= seq![112u8, 115, 101, 117, 100, 111]);
        }
        if sharpie {
            assert(stoks[pi as int] =~= seq![115u8, 104, 97, 114, 112, 105, 101]);
        }
        if csharpie {
            assert(stoks[pi as int] =~= seq![99u8, 115, 104, 97, 114, 112, 105, 101]);
        }
        if !pseudo {
            assert(stoks[pi as int] != seq![112u8, 115, 101, 117, 100, 111]);
        }
        if !sharpie {
            assert(stoks[pi as int] != seq![115u8, 104, 97, 114, 112, 105, 101]);
        }
        if !csharpie {
            assert(stoks[pi as int] != seq![99u8, 115, 104, 97, 114, 112, 105, 101]);
        }
    }
    if pseudo || sharpie || csharpie {
        if toks.len() <= pi + 1 {
            return Err(NameError::MissingIllumination);
        }
        proof {
            assert(stoks[pi + 1] == toks@[pi + 1]@);
        }
        let image_type = if pseudo {
            ImageType::Pseudo
        } else if sharpie {
            ImageType::Sharpie
        } else {
            ImageType::CSharpie
        };
        let parts = split_bytes_exec(toks[pi + 1].as_slice(), 45);  // '-'
        let illumination = illums_from(&parts);
        return Ok(ImageDetails { image_type, illumination });
    }
    Err(NameError::UnknownProcessing)
}

/// Classifies a file name, as `parse_name` specifies over the name's
/// bytes.
pub fn extract_image_details(img_name: &str) -> (r: Result<ImageDetails, NameError>)
    ensures
        r is Ok <==> parse_name(img_name.spec_bytes()) is Ok,
        r matches Ok(v) ==> parse_name(img_name.spec_bytes()) matches Ok(d) && v@ == d,
        r matches Err(e) ==> parse_name(img_name.spec_bytes()) matches Err(d) && d == e,
{
    parse_details(img_name.as_bytes())
}

} // verus!
