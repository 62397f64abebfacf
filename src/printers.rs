use vstd::prelude::*;
use crate::text::{hex_fixed, push_all, push_hex_fixed, push_spaces, spaces};

verus! {

/// Hex cells, `xx ` per byte, of the first `width` bytes of `b`, padded with
/// blank cells up to `width`.
pub open spec fn hex_cells(b: Seq<u8>, width: nat) -> Seq<u8>
    decreases b.len(),
{
    if b.len() == 0 {
        spaces(3 * width)
    } else if width == 0 {
        Seq::empty()
    } else {
        hex_fixed(b[0] as nat, 2) + seq![32u8] + hex_cells(b.drop_first(), (width - 1) as nat)
    }
}

/// Printable ASCII stays, anything else shows as `.`.
pub open spec fn ascii_cell(c: u8) -> u8 {
    if 0x21 <= c <= 0x7e {
        c
    } else {
        46u8
    }
}

pub open spec fn ascii_cells(b: Seq<u8>) -> Seq<u8> {
    b.map_values(|c: u8| ascii_cell(c))
}

/// Bytes shown as hex cells in a column of fixed width.
pub struct HexPrinter<'a>(pub &'a [u8], pub usize);

/// Bytes shown as printable ASCII.
pub struct AsciiPrinter<'a>(pub &'a [u8]);

/// A value, or a fallback character where there is none.
pub struct MaybePrinter<T>(pub Option<T>, pub Option<char>);

/// One of two renderings.
pub enum EitherPrinter<A, B> {
    Left(A),
    Right(B),
}

/// A terminal hyperlink around some text.
pub struct Hyperlink<T, L> {
    text: T,
    link: L,
}

/// A counter that asks a long loop to give way every 256 turns.
pub struct YieldPoint(u8);

impl<'a> HexPrinter<'a> {
    /// Appends the cells.
    pub fn render(&self, out: &mut Vec<u8>)
        requires
            self.1 <= usize::MAX / 3,
        ensures
            final(out)@ == old(out)@ + hex_cells(self.0@, self.1 as nat),
    {
        let b = self.0;
        let width = self.1;
        let mut i: usize = 0;
        assert(b@.subrange(0, b@.len() as int) =~= b@);
        while i < b.len() && i < width
            invariant
                width <= usize::MAX / 3,
                i <= b@.len(),
                i <= width,
                out@ + hex_cells(b@.subrange(i as int, b@.len() as int), (width - i) as nat)
                    == old(out)@ + hex_cells(b@, width as nat),
            decreases b@.len() - i,
        {
            let ghost rest = b@.subrange(i as int, b@.len() as int);
            assert(rest.drop_first() =~= b@.subrange(i + 1, b@.len() as int));
            push_hex_fixed(out, b[i] as u64, 2);
            out.push(32);
            i = i + 1;
            assert(out@ + hex_cells(b@.subrange(i as int, b@.len() as int), (width - i) as nat)
                =~= old(out)@ + hex_cells(b@, width as nat));
        }
        if i == b.len() {
            assert(b@.subrange(i as int, b@.len() as int) =~= Seq::<u8>::empty());
            push_spaces(out, 3 * (width - i));
        } else {
            assert(out@ =~= old(out)@ + hex_cells(b@, width as nat));
        }
    }
}

impl<'a> AsciiPrinter<'a> {
    /// Appends the characters.
    pub fn render(&self, out: &mut Vec<u8>)
        ensures
            final(out)@ == old(out)@ + ascii_cells(self.0@),
    {
        let b = self.0;
        let mut i: usize = 0;
        while i < b.len()
            invariant
                i <= b@.len(),
                out@ == old(out)@ + ascii_cells(b@.subrange(0, i as int)),
            decreases b@.len() - i,
        {
            let c = b[i];
            out.push(
                if 0x21 <= c && c <= 0x7e {
                    c
                } else {
                    46
                },
            );
            i = i + 1;
            assert(out@ =~= old(out)@ + ascii_cells(b@.subrange(0, i as int)));
        }
        assert(b@.subrange(0, b@.len() as int) =~= b@);
    }
}

impl MaybePrinter<Vec<u8>> {
    pub open spec fn text(&self) -> Seq<u8> {
        match self.0 {
            Some(t) => t@,
            None => match self.1 {
                Some(c) => seq![c as u8],
                None => Seq::empty(),
            },
        }
    }

    /// Appends the value, or else the fallback, which must be ASCII.
    pub fn render(&self, out: &mut Vec<u8>)
        requires
            self.1 matches Some(c) ==> (c as u32) < 128,
        ensures
            final(out)@ == old(out)@ + self.text(),
    {
        match &self.0 {
            Some(t) => push_all(out, t.as_slice()),
            None => match self.1 {
                Some(c) => {
                    out.push(c as u8);
                    assert(final(out)@ =~= old(out)@ + self.text());
                },
                None => {
                    assert(final(out)@ =~= old(out)@ + self.text());
                },
            },
        }
    }
}

/// Chooses between a transformed rendering and the plain value.
pub trait IfSupported: Sized {
    /// `Left(f(self))` where `flag` holds, else `Right(self)`.
    fn if_supported<O, F: FnOnce(&Self) -> O>(&self, flag: bool, f: F) -> (r: EitherPrinter<
        O,
        &Self,
    >)
        requires
            flag ==> f.requires((self,)),
        ensures
            flag ==> (r matches EitherPrinter::Left(o) && f.ensures((self,), o)),
            !flag ==> (r matches EitherPrinter::Right(v) && v == self),
    ;
}

impl<T> IfSupported for T {
    fn if_supported<O, F: FnOnce(&Self) -> O>(&self, flag: bool, f: F) -> (r: EitherPrinter<
        O,
        &Self,
    >) {
        if flag {
            EitherPrinter::Left(f(self))
        } else {
            EitherPrinter::Right(self)
        }
    }
}

/// The escape sequences of a terminal hyperlink to `link` around `text`.
pub open spec fn hyperlink_bytes(text: Seq<u8>, link: Seq<u8>) -> Seq<u8> {
    seq![27u8, 93u8, 56u8, 59u8, 59u8] + link + seq![27u8, 92u8] + text + seq![
        27u8,
        93u8,
        56u8,
        59u8,
        59u8,
        27u8,
        92u8,
    ]
}

impl<T, L> Hyperlink<T, L> {
    pub closed spec fn text(&self) -> T {
        self.text
    }

    pub closed spec fn link(&self) -> L {
        self.link
    }

    pub fn new(text: T, link: L) -> (r: Self)
        ensures
            r.text() == text,
            r.link() == link,
    {
        Hyperlink { text, link }
    }
}

impl Hyperlink<Vec<u8>, Vec<u8>> {
    /// Appends the link's escape sequences around its text.
    pub fn render(&self, out: &mut Vec<u8>)
        ensures
            final(out)@ == old(out)@ + hyperlink_bytes(self.text()@, self.link()@),
    {
        out.push(27);
        out.push(93);
        out.push(56);
        out.push(59);
        out.push(59);
        push_all(out, self.link.as_slice());
        out.push(27);
        out.push(92);
        push_all(out, self.text.as_slice());
        out.push(27);
        out.push(93);
        out.push(56);
        out.push(59);
        out.push(59);
        out.push(27);
        out.push(92);
        assert(final(out)@ =~= old(out)@ + hyperlink_bytes(self.text()@, self.link()@));
    }
}

impl YieldPoint {
    pub closed spec fn count(&self) -> u8 {
        self.0
    }

    pub fn new() -> (r: YieldPoint)
        ensures
            r.count() == 0,
    {
        YieldPoint(0)
    }

    /// Counts one turn; true on every 256th, when the loop should give way.
    pub fn tick(&mut self) -> (r: bool)
        ensures
            r == (old(self).count() == 255),
            final(self).count() == if r {
                0
            } else {
                (old(self).count() + 1) as u8
            },
    {
        if self.0 == u8::MAX {
            self.0 = 0;
            true
        } else {
            self.0 = self.0 + 1;
            false
        }
    }
}

} // verus!
