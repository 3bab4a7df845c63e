use vstd::prelude::*;

verus! {

/// The absolute value of `v`.
pub open spec fn abs(v: int) -> int {
    if v > 0 {
        v
    } else {
        -v
    }
}

/// The absolute value is the value or its negation, whichever is not negative.
pub proof fn lemma_abs(v: int)
    ensures
        abs(v) >= 0,
        abs(v) == v || abs(v) == -v,
{
}

/// The absolute value of `num`.
pub fn abs_i128(num: i128) -> (r: i128)
    requires
        num != i128::MIN,
    ensures
        r == abs(num as int),
{
    if num > 0 {
        num
    } else {
        -num
    }
}

/// `a / b` rounded toward zero, for a positive `b`.
pub open spec fn div_toward_zero(a: int, b: int) -> int {
    if a >= 0 {
        a / b
    } else {
        -((-a) / b)
    }
}

/// Division rounded toward zero: for a positive `b`, the quotient `q` of a
/// nonnegative `a` satisfies `q * b <= a < q * b + b`, and that of a negative
/// `a` satisfies `q * b - b < a <= q * b`.
pub proof fn lemma_div_toward_zero(a: int, b: int)
    requires
        b > 0,
    ensures
        a >= 0 ==> 0 <= div_toward_zero(a, b) * b <= a < div_toward_zero(a, b) * b + b,
        a < 0 ==> div_toward_zero(a, b) * b - b < a <= div_toward_zero(a, b) * b <= 0,
{
    let m = if a >= 0 { a } else { -a };
    vstd::arithmetic::div_mod::lemma_fundamental_div_mod(m, b);
    vstd::arithmetic::div_mod::lemma_mod_pos_bound(m, b);
    vstd::arithmetic::div_mod::lemma_div_pos_is_pos(m, b);
    let q = m / b;
    assert(0 <= q * b <= m < q * b + b) by (nonlinear_arith)
        requires
            m == b * q + m % b,
            0 <= m % b < b,
            q >= 0,
            b > 0,
    ;
    if a < 0 {
        assert((-q) * b == -(q * b)) by (nonlinear_arith);
    }
}

/// Cursor pixels moved per unit of pointer movement per unit of resolution.
pub const POINTER_SPEED: i128 = 2;

/// How far the cursor moves along one axis for a pointer movement of `movement`
/// at pointer resolution `resolution`.
pub open spec fn cursor_step(movement: i32, resolution: u64) -> int {
    div_toward_zero(movement as int, resolution as int) * POINTER_SPEED
}

/// The desktop cursor position. The pointer may move it to negative
/// coordinates; it is drawn at the absolute values.
pub struct Cursor {
    pub x: i128,
    pub y: i128,
}

impl Cursor {
    /// The cursor at the centre of a `width` by `height` screen.
    pub fn centered(width: usize, height: usize) -> (c: Cursor)
        ensures
            c.x == width / 2,
            c.y == height / 2,
    {
        Cursor { x: (width as i128) / 2, y: (height as i128) / 2 }
    }

    /// The pixel column and row at which the cursor is drawn: the absolute values
    /// of its coordinates, as `usize` (keeping their lowest bits).
    pub fn position(&self) -> (r: (usize, usize))
        requires
            self.x != i128::MIN,
            self.y != i128::MIN,
        ensures
            r.0 == abs(self.x as int) as usize,
            r.1 == abs(self.y as int) as usize,
    {
        let p_x: usize = abs_i128(self.x) as usize;
        let p_y: usize = abs_i128(self.y) as usize;
        (p_x, p_y)
    }

    /// Whether `follow` may move the cursor by `movement` at `resolution`: both
    /// resolutions are nonzero and both moved coordinates stay within `i128`.
    pub fn can_follow(&self, movement: [i32; 3], resolution: [u64; 3]) -> (r: bool)
        ensures
            r == (resolution[0] != 0 && resolution[1] != 0 && i128::MIN <= self.x + cursor_step(
                movement[0],
                resolution[0],
            ) <= i128::MAX && i128::MIN <= self.y + cursor_step(movement[1], resolution[1])
                <= i128::MAX),
    {
        if resolution[0] == 0 || resolution[1] == 0 {
            return false;
        }
        let dx: i128 = (movement[0] as i128) / (resolution[0] as i128) * POINTER_SPEED;
        let dy: i128 = (movement[1] as i128) / (resolution[1] as i128) * POINTER_SPEED;
        self.x.checked_add(dx).is_some() && self.y.checked_add(dy).is_some()
    }

    /// Moves the cursor by a pointer movement reported at the given pointer
    /// resolution: along each axis by the movement divided by the resolution
    /// (rounded toward zero), times `POINTER_SPEED`.
    pub fn follow(&mut self, movement: [i32; 3], resolution: [u64; 3])
        requires
            resolution[0] != 0,
            resolution[1] != 0,
            i128::MIN <= old(self).x + cursor_step(movement[0], resolution[0]) <= i128::MAX,
            i128::MIN <= old(self).y + cursor_step(movement[1], resolution[1]) <= i128::MAX,
        ensures
            final(self).x == old(self).x + cursor_step(movement[0], resolution[0]),
            final(self).y == old(self).y + cursor_step(movement[1], resolution[1]),
    {
        self.x = self.x + (movement[0] as i128) / (resolution[0] as i128) * POINTER_SPEED;
        self.y = self.y + (movement[1] as i128) / (resolution[1] as i128) * POINTER_SPEED;
    }
}

} // verus!
