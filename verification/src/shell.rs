//! The editor shell's pure helpers: panel titles, labels and units, the
//! keyframe glyph code, title trimming, aspect ratios and timecode text.

use crate::anim::{Keyframe, SideInterp};
use crate::divisor::{divides, gcd, gcd_u32, lemma_reduced_coprime};
use crate::model::{BlendMode, TransformProp};
use crate::retime::Ease;
use vstd::prelude::*;
use vstd::std_specs::iter::IteratorSpec;

verus! {

/// A dockable panel of the workspace.
#[derive(Clone, Copy, PartialEq, Eq, Debug, Structural)]
pub enum Panel {
    Project,
    Viewer,
    Timeline,
    EffectControls,
    EffectsAndPresets,
    Scopes,
}

impl Panel {
    /// The panel's tab title.
    pub fn title(&self) -> (r: &'static str)
        ensures
            r@ == match *self {
                Panel::Project => "Project"@,
                Panel::Viewer => "Viewer"@,
                Panel::Timeline => "Timeline"@,
                Panel::EffectControls => "Effect controls"@,
                Panel::EffectsAndPresets => "Effects & presets"@,
                Panel::Scopes => "Scopes"@,
            },
    {
        match self {
            Panel::Project => "Project",
            Panel::Viewer => "Viewer",
            Panel::Timeline => "Timeline",
            Panel::EffectControls => "Effect controls",
            Panel::EffectsAndPresets => "Effects & presets",
            Panel::Scopes => "Scopes",
        }
    }
}

/// Short label for a speed-ramp ease.
pub fn ease_label(e: Ease) -> (r: &'static str)
    ensures
        r@ == match e {
            Ease::Linear => "Linear"@,
            Ease::Slow => "Slow"@,
            Ease::Fast => "Fast"@,
            Ease::Smooth => "Smooth"@,
            Ease::Sharp => "Sharp"@,
        },
{
    match e {
        Ease::Linear => "Linear",
        Ease::Slow => "Slow",
        Ease::Fast => "Fast",
        Ease::Smooth => "Smooth",
        Ease::Sharp => "Sharp",
    }
}

/// The unit a transform property's axis labels carry ("" for the pixel
/// properties).
pub fn prop_unit(prop: TransformProp) -> (r: &'static str)
    ensures
        r@ == match prop {
            TransformProp::ScaleX | TransformProp::ScaleY | TransformProp::Opacity => "%"@,
            TransformProp::Rotation | TransformProp::RotationX | TransformProp::RotationY => "°"@,
            _ => ""@,
        },
{
    match prop {
        TransformProp::ScaleX | TransformProp::ScaleY | TransformProp::Opacity => "%",
        TransformProp::Rotation | TransformProp::RotationX | TransformProp::RotationY => "°",
        _ => "",
    }
}

/// A blend mode's menu name.
pub fn blend_name(b: BlendMode) -> (r: &'static str)
    ensures
        r@ == match b {
            BlendMode::Normal => "Normal"@,
            BlendMode::Add => "Add"@,
            BlendMode::Multiply => "Multiply"@,
            BlendMode::Screen => "Screen"@,
            BlendMode::Overlay => "Overlay"@,
            BlendMode::SoftLight => "Soft light"@,
            BlendMode::HardLight => "Hard light"@,
            BlendMode::Lighten => "Lighten"@,
            BlendMode::Darken => "Darken"@,
        },
{
    match b {
        BlendMode::Normal => "Normal",
        BlendMode::Add => "Add",
        BlendMode::Multiply => "Multiply",
        BlendMode::Screen => "Screen",
        BlendMode::Overlay => "Overlay",
        BlendMode::SoftLight => "Soft light",
        BlendMode::HardLight => "Hard light",
        BlendMode::Lighten => "Lighten",
        BlendMode::Darken => "Darken",
    }
}

/// The glyph a keyframe draws with: a square holds, a diamond is linear, a
/// circle is a bezier (eased) key.
#[derive(Debug, Clone, Copy, PartialEq, Eq, Structural)]
pub enum KeyShape {
    Square,
    Diamond,
    Circle,
}

/// The glyph coding a keyframe's interpolation: a hold on either side wins,
/// then a bezier on either side, else linear.
pub fn key_shape(k: &Keyframe) -> (r: KeyShape)
    ensures
        r == if k.interp_in is Hold || k.interp_out is Hold {
            KeyShape::Square
        } else if k.interp_in is Bezier || k.interp_out is Bezier {
            KeyShape::Circle
        } else {
            KeyShape::Diamond
        },
{
    if matches!(k.interp_in, SideInterp::Hold) || matches!(k.interp_out, SideInterp::Hold) {
        KeyShape::Square
    } else if matches!(k.interp_in, SideInterp::Bezier { .. }) || matches!(k.interp_out, SideInterp::Bezier { .. }) {
        KeyShape::Circle
    } else {
        KeyShape::Diamond
    }
}

/// The character of a decimal digit.
pub open spec fn digit_char(d: nat) -> char {
    if d == 0 {
        '0'
    } else if d == 1 {
        '1'
    } else if d == 2 {
        '2'
    } else if d == 3 {
        '3'
    } else if d == 4 {
        '4'
    } else if d == 5 {
        '5'
    } else if d == 6 {
        '6'
    } else if d == 7 {
        '7'
    } else if d == 8 {
        '8'
    } else {
        '9'
    }
}

/// The decimal digits of `n`, most significant first, no leading zeros.
pub open spec fn decimal(n: nat) -> Seq<char>
    decreases n,
{
    if n < 10 {
        seq![digit_char(n)]
    } else {
        decimal(n / 10).push(digit_char(n % 10))
    }
}

/// `n` in decimal, zero-padded to at least `width` digits.
pub open spec fn padded(n: nat, width: nat) -> Seq<char> {
    let d = decimal(n);
    if d.len() >= width {
        d
    } else {
        Seq::new((width - d.len()) as nat, |i: int| '0') + d
    }
}

/// The number a digit character stands for: its distance from `'0'`.
pub open spec fn digit_value(c: char) -> int {
    c as int - '0' as int
}

/// `c` is one of `'0'..='9'`.
pub open spec fn is_digit(c: char) -> bool {
    '0' as int <= c as int <= '9' as int
}

/// Every character of `s` is a decimal digit.
pub open spec fn all_digits(s: Seq<char>) -> bool {
    forall|i: int| 0 <= i < s.len() ==> is_digit(#[trigger] s[i])
}

/// The number a run of decimal digits reads as, most significant first.
pub open spec fn digits_value(s: Seq<char>) -> int
    decreases s.len(),
{
    if s.len() == 0 {
        0
    } else {
        digits_value(s.drop_last()) * 10 + digit_value(s.last())
    }
}

/// `s` is four digit fields joined by colons, reading as `a`, `b`, `c`, `d`.
pub open spec fn clock_fields(s: Seq<char>, a: nat, b: nat, c: nat, d: nat) -> bool {
    exists|fa: Seq<char>, fb: Seq<char>, fc: Seq<char>, fd: Seq<char>|
        #![trigger digits_value(fa), digits_value(fb), digits_value(fc), digits_value(fd)]
        {
            &&& s == fa + seq![':'] + fb + seq![':'] + fc + seq![':'] + fd
            &&& fa.len() >= 1 && fb.len() >= 1 && fc.len() >= 1 && fd.len() >= 1
            &&& all_digits(fa) && all_digits(fb) && all_digits(fc) && all_digits(fd)
            &&& digits_value(fa) == a && digits_value(fb) == b && digits_value(fc) == c && digits_value(fd) == d
        }
}

/// Each digit character is the character `d` places after `'0'`.
proof fn lemma_digit_char(d: nat)
    requires
        d < 10,
    ensures
        digit_value(digit_char(d)) == d,
        is_digit(digit_char(d)),
{
}

/// Decimal text reads back: `n` in decimal is a non-empty run of digits
/// whose value is `n`.
pub proof fn law_decimal_reads_back(n: nat)
    ensures
        decimal(n).len() >= 1,
        all_digits(decimal(n)),
        digits_value(decimal(n)) == n,
    decreases n,
{
    if n < 10 {
        lemma_digit_char(n);
        assert(decimal(n).drop_last() =~= Seq::<char>::empty());
        assert(digits_value(decimal(n)) == digits_value(decimal(n).drop_last()) * 10 + digit_value(decimal(n).last()));
    } else {
        law_decimal_reads_back(n / 10);
        lemma_digit_char(n % 10);
        let d = decimal(n);
        assert(d.drop_last() =~= decimal(n / 10));
        assert(d.last() == digit_char(n % 10));
        vstd::arithmetic::div_mod::lemma_fundamental_div_mod(n as int, 10);
        assert(digits_value(d) == digits_value(d.drop_last()) * 10 + digit_value(d.last()));
        assert forall|i: int| 0 <= i < d.len() implies is_digit(#[trigger] d[i]) by {
            if i < d.len() - 1 {
                assert(d[i] == decimal(n / 10)[i]);
            }
        }
    }
}

/// Leading zeros do not change what digits read as.
proof fn lemma_leading_zeros(k: nat, d: Seq<char>)
    ensures
        digits_value(Seq::new(k, |i: int| '0') + d) == digits_value(d),
    decreases d.len(), k,
{
    let z = Seq::new(k, |i: int| '0');
    if d.len() == 0 {
        assert(z + d =~= z);
        if k > 0 {
            assert(z.drop_last() =~= Seq::new((k - 1) as nat, |i: int| '0'));
            lemma_leading_zeros((k - 1) as nat, d);
            assert(Seq::new((k - 1) as nat, |i: int| '0') + d =~= Seq::new((k - 1) as nat, |i: int| '0'));
        }
    } else {
        assert((z + d).drop_last() =~= z + d.drop_last());
        lemma_leading_zeros(k, d.drop_last());
    }
}

/// Zero-padded decimal text reads back: a non-empty run of digits whose
/// value is `n`, at least `width` long.
pub proof fn law_padded_reads_back(n: nat, width: nat)
    ensures
        padded(n, width).len() >= 1,
        padded(n, width).len() >= width,
        all_digits(padded(n, width)),
        digits_value(padded(n, width)) == n,
{
    law_decimal_reads_back(n);
    let d = decimal(n);
    if d.len() < width {
        let k = (width - d.len()) as nat;
        lemma_leading_zeros(k, d);
        let p = Seq::new(k, |i: int| '0') + d;
        assert forall|i: int| 0 <= i < p.len() implies is_digit(#[trigger] p[i]) by {
            if i >= k {
                assert(p[i] == d[i - k]);
            }
        }
    }
}

/// Four numbers joined as zero-padded digit fields read back as themselves.
proof fn lemma_clock_reads_back(a: nat, b: nat, c: nat, d: nat, wa: nat, wb: nat, wc: nat, wd: nat)
    ensures
        clock_fields(
            padded(a, wa) + seq![':'] + padded(b, wb) + seq![':'] + padded(c, wc) + seq![':'] + padded(d, wd),
            a,
            b,
            c,
            d,
        ),
{
    law_padded_reads_back(a, wa);
    law_padded_reads_back(b, wb);
    law_padded_reads_back(c, wc);
    law_padded_reads_back(d, wd);
    let (fa, fb, fc, fd) = (padded(a, wa), padded(b, wb), padded(c, wc), padded(d, wd));
    assert(digits_value(fa) == a && digits_value(fb) == b && digits_value(fc) == c && digits_value(fd) == d);
}

/// The timecode of `total_frames` at `fps` frames a second.
pub open spec fn timecode_text(total_frames: nat, fps: nat) -> Seq<char> {
    let s = total_frames / fps;
    padded(s / 3600, 2) + seq![':'] + padded((s / 60) % 60, 2) + seq![':'] + padded(s % 60, 2) + seq![':'] + padded(
        total_frames % fps,
        2,
    )
}

/// A frame timecode reads back: four colon-separated digit fields giving
/// the hours, the minutes and seconds within the hour and minute, and the
/// frame within the second (`total_frames mod fps`).
pub proof fn law_timecode_reads_back(total_frames: nat, fps: nat)
    requires
        fps >= 1,
    ensures
        clock_fields(
            timecode_text(total_frames, fps),
            total_frames / fps / 3600,
            (total_frames / fps / 60) % 60,
            (total_frames / fps) % 60,
            total_frames % fps,
        ),
{
    let s = total_frames / fps;
    lemma_clock_reads_back(s / 3600, (s / 60) % 60, s % 60, total_frames % fps, 2, 2, 2, 2);
}

/// The duration text of `total_ms` milliseconds.
pub open spec fn millis_text(total_ms: nat) -> Seq<char> {
    padded(total_ms / 3_600_000, 2) + seq![':'] + padded((total_ms / 60_000) % 60, 2) + seq![':'] + padded(
        (total_ms / 1000) % 60,
        2,
    ) + seq![':'] + padded(total_ms % 1000, 3)
}

/// A duration reads back: four colon-separated digit fields giving the
/// hours, the minutes and seconds within the hour and minute, and the
/// milliseconds within the second.
pub proof fn law_duration_reads_back(total_ms: nat)
    ensures
        clock_fields(
            millis_text(total_ms),
            total_ms / 3_600_000,
            (total_ms / 60_000) % 60,
            (total_ms / 1000) % 60,
            total_ms % 1000,
        ),
{
    lemma_clock_reads_back(total_ms / 3_600_000, (total_ms / 60_000) % 60, (total_ms / 1000) % 60, total_ms % 1000, 2, 2, 2, 3);
}

/// The character of decimal digit `d`.
fn digit(d: u64) -> (r: char)
    requires
        d < 10,
    ensures
        r == digit_char(d as nat),
{
    if d == 0 {
        '0'
    } else if d == 1 {
        '1'
    } else if d == 2 {
        '2'
    } else if d == 3 {
        '3'
    } else if d == 4 {
        '4'
    } else if d == 5 {
        '5'
    } else if d == 6 {
        '6'
    } else if d == 7 {
        '7'
    } else if d == 8 {
        '8'
    } else {
        '9'
    }
}

/// Append the decimal digits of `n` to `out`.
pub(crate) fn push_decimal(out: &mut Vec<char>, n: u64)
    ensures
        final(out)@ == old(out)@ + decimal(n as nat),
    decreases n,
{
    if n < 10 {
        out.push(digit(n));
        assert(decimal(n as nat) == seq![digit_char(n as nat)]);
    } else {
        push_decimal(out, n / 10);
        out.push(digit(n % 10));
        assert(decimal(n as nat) == decimal((n / 10) as nat).push(digit_char((n % 10) as nat)));
    }
}

/// Append `n` in decimal, zero-padded to at least `width` digits, to `out`.
fn push_padded(out: &mut Vec<char>, n: u64, width: usize)
    requires
        width <= 3,
    ensures
        final(out)@ == old(out)@ + padded(n as nat, width as nat),
{
    let ghost d = decimal(n as nat);
    let mut digits: Vec<char> = Vec::new();
    push_decimal(&mut digits, n);
    assert(digits@ =~= d);
    let len = digits.len();
    let ghost start = out@;
    if len < width {
        let mut k: usize = 0;
        while k < width - len
            invariant
                len < width <= 3,
                k <= width - len,
                out@ =~= start + Seq::new(k as nat, |i: int| '0'),
            decreases width - len - k,
        {
            out.push('0');
            k = k + 1;
        }
    }
    let ghost mid = out@;
    let mut j: usize = 0;
    while j < len
        invariant
            len == digits@.len(),
            j <= len,
            out@ =~= mid + digits@.subrange(0, j as int),
        decreases len - j,
    {
        out.push(digits[j]);
        j = j + 1;
    }
    assert(digits@.subrange(0, len as int) =~= digits@);
}

/// The text of `cs`.
pub(crate) fn text_of(cs: &Vec<char>) -> (r: String)
    ensures
        r@ == cs@,
{
    string_of(cs.as_slice())
}

/// `s` is two digit fields joined by a colon, reading as `a` and `b`.
pub open spec fn ratio_fields(s: Seq<char>, a: nat, b: nat) -> bool {
    exists|fa: Seq<char>, fb: Seq<char>|
        #![trigger digits_value(fa), digits_value(fb)]
        {
            &&& s == fa + seq![':'] + fb
            &&& fa.len() >= 1 && fb.len() >= 1
            &&& all_digits(fa) && all_digits(fb)
            &&& digits_value(fa) == a && digits_value(fb) == b
        }
}

/// The aspect label of a `w`×`h` frame reads back as the frame's own ratio
/// in lowest terms: two colon-separated numbers `a:b` with `a·h = b·w` and no
/// common factor (for non-zero sides).
pub proof fn law_aspect_reads_back(w: nat, h: nat)
    requires
        w > 0,
        h > 0,
    ensures
        ({
            let g = gcd(w, h);
            &&& g > 0
            &&& ratio_fields(decimal(w / g) + seq![':'] + decimal(h / g), w / g, h / g)
            &&& (w / g) * h == (h / g) * w
            &&& gcd(w / g, h / g) == 1
        }),
{
    let g = gcd(w, h);
    lemma_reduced_coprime(w, h);
    assert(g > 0);
    law_decimal_reads_back(w / g);
    law_decimal_reads_back(h / g);
    let (fa, fb) = (decimal(w / g), decimal(h / g));
    assert(digits_value(fa) == w / g && digits_value(fb) == h / g);
    vstd::arithmetic::div_mod::lemma_fundamental_div_mod(w as int, g as int);
    vstd::arithmetic::div_mod::lemma_fundamental_div_mod(h as int, g as int);
    let p = w / g;
    let q = h / g;
    assert(p * h == q * w) by (nonlinear_arith)
        requires
            w == g * p,
            h == g * q,
    ;
}

/// A width:height pair in lowest terms for display (1920×1080 → "16:9");
/// zero sides count as one when reducing.
pub fn aspect_ratio_label(w: u32, h: u32) -> (r: String)
    ensures
        ({
            let g0 = gcd(if w == 0 { 1nat } else { w as nat }, if h == 0 { 1nat } else { h as nat });
            let g = if g0 == 0 { 1nat } else { g0 };
            r@ == decimal(w as nat / g) + seq![':'] + decimal(h as nat / g)
        }),
        w > 0 && h > 0 ==> ratio_fields(
            r@,
            w as nat / gcd(w as nat, h as nat),
            h as nat / gcd(w as nat, h as nat),
        ),
{
    proof {
        if w > 0 && h > 0 {
            law_aspect_reads_back(w as nat, h as nat);
        }
    }
    let a: u32 = if w == 0 { 1 } else { w };
    let b: u32 = if h == 0 { 1 } else { h };
    let g0 = gcd_u32(a, b);
    let g: u32 = if g0 == 0 { 1 } else { g0 };
    let mut out: Vec<char> = Vec::new();
    push_decimal(&mut out, (w / g) as u64);
    out.push(':');
    push_decimal(&mut out, (h / g) as u64);
    text_of(&out)
}

/// Frame timecode `HH:MM:SS:FF` for `total_frames` at an integer `fps`: the
/// frame field wraps at `fps` and whole seconds carry up.
pub fn timecode_of_frames(total_frames: u64, fps: u64) -> (r: String)
    requires
        fps >= 1,
    ensures
        r@ == timecode_text(total_frames as nat, fps as nat),
        clock_fields(
            r@,
            (total_frames / fps / 3600) as nat,
            ((total_frames / fps / 60) % 60) as nat,
            ((total_frames / fps) % 60) as nat,
            (total_frames % fps) as nat,
        ),
{
    proof {
        law_timecode_reads_back(total_frames as nat, fps as nat);
    }
    let ff = total_frames % fps;
    let total_s = total_frames / fps;
    let s = total_s % 60;
    let m = (total_s / 60) % 60;
    let h = total_s / 3600;
    let mut out: Vec<char> = Vec::new();
    push_padded(&mut out, h, 2);
    out.push(':');
    push_padded(&mut out, m, 2);
    out.push(':');
    push_padded(&mut out, s, 2);
    out.push(':');
    push_padded(&mut out, ff, 2);
    text_of(&out)
}

/// Duration `HH:MM:SS:mmm` for a whole number of milliseconds.
pub fn duration_of_millis(total_ms: u64) -> (r: String)
    ensures
        r@ == millis_text(total_ms as nat),
        clock_fields(
            r@,
            (total_ms / 3_600_000) as nat,
            ((total_ms / 60_000) % 60) as nat,
            ((total_ms / 1000) % 60) as nat,
            (total_ms % 1000) as nat,
        ),
{
    proof {
        law_duration_reads_back(total_ms as nat);
    }
    let ms = total_ms % 1000;
    let s = (total_ms / 1000) % 60;
    let m = (total_ms / 60_000) % 60;
    let h = total_ms / 3_600_000;
    let mut out: Vec<char> = Vec::new();
    push_padded(&mut out, h, 2);
    out.push(':');
    push_padded(&mut out, m, 2);
    out.push(':');
    push_padded(&mut out, s, 2);
    out.push(':');
    push_padded(&mut out, ms, 3);
    text_of(&out)
}

/// The characters of a string, in order.
fn chars_of(s: &str) -> (r: Vec<char>)
    ensures
        r@ == s@,
{
    broadcast use vstd::string::axiom_spec_iter, vstd::string::next_postcondition;
    let mut it = s.chars();
    let mut out: Vec<char> = Vec::new();
    loop
        invariant
            it.obeys_prophetic_iter_laws(),
            it.decrease() is Some,
            out@ + it.remaining() == s@,
        decreases it.decrease()->0,
    {
        let ghost before = it.remaining();
        match it.next() {
            Some(c) => {
                out.push(c);
                assert(out@ + it.remaining() =~= s@) by {
                    assert(before =~= seq![c] + it.remaining());
                }
            },
            None => {
                assert(out@ =~= s@);
                return out;
            },
        }
    }
}

/// A string of the given characters.
///
/// Calls std's `String: FromIterator<&char>`; claimed: the string holds the
/// characters in order.
#[verifier::external_body]
fn string_of(cs: &[char]) -> (r: String)
    ensures
        r@ == cs@,
{
    cs.iter().collect()
}

/// The longest layer title shown in full, in characters.
pub const TITLE_MAX: usize = 48;

/// A layer title for display: shown whole up to 48 characters, else its
/// first 47 characters followed by "…".
pub fn trim_title(name: &str) -> (r: String)
    ensures
        r@ == if name@.len() <= TITLE_MAX as nat {
            name@
        } else {
            name@.subrange(0, TITLE_MAX - 1).push('…')
        },
{
    let cs = chars_of(name);
    if cs.len() <= TITLE_MAX {
        name.to_owned()
    } else {
        let mut out: Vec<char> = Vec::new();
        for i in 0..TITLE_MAX - 1
            invariant
                cs@ == name@,
                cs@.len() > TITLE_MAX,
                out@ == cs@.subrange(0, i as int),
        {
            out.push(cs[i]);
            assert(out@ =~= cs@.subrange(0, i + 1));
        }
        out.push('…');
        string_of(out.as_slice())
    }
}

} // verus!
