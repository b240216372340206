//! Terminal colors and styles, written as ANSI escape sequences.
use crate::text::{from_chars, push_str, str_eq};
use vstd::prelude::*;

verus! {

/// The sixteen terminal colors.
#[derive(Debug, Clone, Copy, PartialEq, Eq, Structural)]
pub enum Color {
    Black,
    Red,
    Green,
    Yellow,
    Blue,
    Magenta,
    Cyan,
    White,
    BrightBlack,
    BrightRed,
    BrightGreen,
    BrightYellow,
    BrightBlue,
    BrightMagenta,
    BrightCyan,
    BrightWhite,
}

/// The color named `s`; an unknown name gives white.
pub open spec fn color_named(s: Seq<char>) -> Color {
    if s == "black"@ {
        Color::Black
    } else if s == "red"@ {
        Color::Red
    } else if s == "green"@ {
        Color::Green
    } else if s == "yellow"@ {
        Color::Yellow
    } else if s == "blue"@ {
        Color::Blue
    } else if s == "magenta"@ {
        Color::Magenta
    } else if s == "cyan"@ {
        Color::Cyan
    } else if s == "white"@ {
        Color::White
    } else if s == "bright black"@ {
        Color::BrightBlack
    } else if s == "bright red"@ {
        Color::BrightRed
    } else if s == "bright green"@ {
        Color::BrightGreen
    } else if s == "bright yellow"@ {
        Color::BrightYellow
    } else if s == "bright blue"@ {
        Color::BrightBlue
    } else if s == "bright magenta"@ {
        Color::BrightMagenta
    } else if s == "bright cyan"@ {
        Color::BrightCyan
    } else if s == "bright white"@ {
        Color::BrightWhite
    } else {
        Color::White
    }
}

impl Color {
    /// The color named `s`; an unknown name gives white.
    pub fn from(s: &str) -> (r: Color)
        ensures
            r == color_named(s@),
    {
        if str_eq(s, "black") {
            Color::Black
        } else if str_eq(s, "red") {
            Color::Red
        } else if str_eq(s, "green") {
            Color::Green
        } else if str_eq(s, "yellow") {
            Color::Yellow
        } else if str_eq(s, "blue") {
            Color::Blue
        } else if str_eq(s, "magenta") {
            Color::Magenta
        } else if str_eq(s, "cyan") {
            Color::Cyan
        } else if str_eq(s, "white") {
            Color::White
        } else if str_eq(s, "bright black") {
            Color::BrightBlack
        } else if str_eq(s, "bright red") {
            Color::BrightRed
        } else if str_eq(s, "bright green") {
            Color::BrightGreen
        } else if str_eq(s, "bright yellow") {
            Color::BrightYellow
        } else if str_eq(s, "bright blue") {
            Color::BrightBlue
        } else if str_eq(s, "bright magenta") {
            Color::BrightMagenta
        } else if str_eq(s, "bright cyan") {
            Color::BrightCyan
        } else if str_eq(s, "bright white") {
            Color::BrightWhite
        } else {
            Color::White
        }
    }
}

/// The ANSI code of a foreground color.
pub open spec fn color_code(c: Color) -> Seq<char> {
    match c {
        Color::Black => "30"@,
        Color::Red => "31"@,
        Color::Green => "32"@,
        Color::Yellow => "33"@,
        Color::Blue => "34"@,
        Color::Magenta => "35"@,
        Color::Cyan => "36"@,
        Color::White => "37"@,
        Color::BrightBlack => "90"@,
        Color::BrightRed => "91"@,
        Color::BrightGreen => "92"@,
        Color::BrightYellow => "93"@,
        Color::BrightBlue => "94"@,
        Color::BrightMagenta => "95"@,
        Color::BrightCyan => "96"@,
        Color::BrightWhite => "97"@,
    }
}

fn color_code_exec(c: Color) -> (r: &'static str)
    ensures
        r@ == color_code(c),
{
    match c {
        Color::Black => "30",
        Color::Red => "31",
        Color::Green => "32",
        Color::Yellow => "33",
        Color::Blue => "34",
        Color::Magenta => "35",
        Color::Cyan => "36",
        Color::White => "37",
        Color::BrightBlack => "90",
        Color::BrightRed => "91",
        Color::BrightGreen => "92",
        Color::BrightYellow => "93",
        Color::BrightBlue => "94",
        Color::BrightMagenta => "95",
        Color::BrightCyan => "96",
        Color::BrightWhite => "97",
    }
}

/// The codes of the styles set in `map`: bold, dimmed, italic, underline.
pub open spec fn style_codes(map: u8) -> Seq<Seq<char>> {
    (if map & 1 != 0 {
        seq!["1"@]
    } else {
        Seq::empty()
    }) + (if map & 2 != 0 {
        seq!["2"@]
    } else {
        Seq::empty()
    }) + (if map & 4 != 0 {
        seq!["3"@]
    } else {
        Seq::empty()
    }) + (if map & 8 != 0 {
        seq!["4"@]
    } else {
        Seq::empty()
    })
}

/// `text` with the given color and styles: unchanged when there are none,
/// otherwise between the escape sequence that sets them and the one that resets.
pub open spec fn styled_text(text: Seq<char>, color: Option<Color>, map: u8) -> Seq<char> {
    if color is None && map == 0 {
        text
    } else {
        let codes = style_codes(map) + match color {
            Some(c) => seq![color_code(c)],
            None => Seq::empty(),
        };
        "\x1B["@ + crate::text::join_seq(codes, ";"@) + "m"@ + text + "\x1B[0m"@
    }
}

/// A value with a color and styles to show it with.
pub struct StyleObj<T> {
    obj: T,
    color: Option<Color>,
    style_map: u8,
}

impl<T> StyleObj<T> {
    /// The value, its color and the styles set (bold, dimmed, italic, underline
    /// from the lowest bit up).
    pub closed spec fn spec_parts(&self) -> (T, Option<Color>, u8) {
        (self.obj, self.color, self.style_map)
    }

    /// Ends a chain of style calls.
    pub fn done(&self) {
    }

    pub fn bold(&mut self) -> (r: &mut Self)
        ensures
            r.spec_parts() == (old(self).spec_parts().0, old(self).spec_parts().1, old(self).spec_parts().2 | 1),
            *final(self) == *final(r),
    {
        self.style_map = self.style_map | 1;
        self
    }

    pub fn dimmed(&mut self) -> (r: &mut Self)
        ensures
            r.spec_parts() == (old(self).spec_parts().0, old(self).spec_parts().1, old(self).spec_parts().2 | 2),
            *final(self) == *final(r),
    {
        self.style_map = self.style_map | 2;
        self
    }

    pub fn italic(&mut self) -> (r: &mut Self)
        ensures
            r.spec_parts() == (old(self).spec_parts().0, old(self).spec_parts().1, old(self).spec_parts().2 | 4),
            *final(self) == *final(r),
    {
        self.style_map = self.style_map | 4;
        self
    }

    pub fn underline(&mut self) -> (r: &mut Self)
        ensures
            r.spec_parts() == (old(self).spec_parts().0, old(self).spec_parts().1, old(self).spec_parts().2 | 8),
            *final(self) == *final(r),
    {
        self.style_map = self.style_map | 8;
        self
    }

    pub fn color(&mut self, color: Color) -> (r: &mut Self)
        ensures
            r.spec_parts() == (old(self).spec_parts().0, Some(color), old(self).spec_parts().2),
            *final(self) == *final(r),
    {
        self.color = Some(color);
        self
    }
}

impl StyleObj<String> {
    /// The text with its color and styles.
    pub fn to_string(&self) -> (r: String)
        ensures
            r@ == styled_text(self.spec_parts().0@, self.spec_parts().1, self.spec_parts().2),
    {
        let map = self.style_map;
        if self.color.is_none() && map == 0 {
            return self.obj.clone();
        }
        let mut codes: Vec<&str> = Vec::new();
        if map & 1 != 0 {
            codes.push("1");
        }
        if map & 2 != 0 {
            codes.push("2");
        }
        if map & 4 != 0 {
            codes.push("3");
        }
        if map & 8 != 0 {
            codes.push("4");
        }
        if let Some(c) = self.color {
            codes.push(color_code_exec(c));
        }
        let ghost cv = codes@.map_values(|s: &str| s@);
        assert(cv =~= style_codes(map) + match self.color {
            Some(c) => seq![color_code(c)],
            None => Seq::empty(),
        });
        let mut v: Vec<char> = Vec::new();
        push_str(&mut v, "\x1B[");
        let ghost head = v@;
        let mut i: usize = 0;
        while i < codes.len()
            invariant
                cv == codes@.map_values(|s: &str| s@),
                i <= codes@.len(),
                v@ == head + crate::text::join_seq(cv.take(i as int), ";"@),
            decreases codes@.len() - i,
        {
            let ghost before = v@;
            if i > 0 {
                push_str(&mut v, ";");
            }
            push_str(&mut v, codes[i]);
            proof {
                let t = cv.take(i + 1);
                assert(t.drop_last() =~= cv.take(i as int));
                if i > 0 {
                    assert(v@ =~= head + crate::text::join_seq(t, ";"@));
                } else {
                    assert(cv.take(i as int) =~= Seq::<Seq<char>>::empty());
                    assert(v@ =~= head + crate::text::join_seq(t, ";"@));
                }
            }
            i = i + 1;
        }
        assert(cv.take(codes@.len() as int) =~= cv);
        push_str(&mut v, "m");
        push_str(&mut v, self.obj.as_str());
        push_str(&mut v, "\x1B[0m");
        from_chars(v.as_slice())
    }
}

/// Gives a value a style, starting from none.
pub trait Stylize<T> {
    fn stylize(self) -> (r: StyleObj<T>);
}

impl<T> Stylize<T> for T {
    fn stylize(self) -> (r: StyleObj<T>)
        ensures
            r.spec_parts() == (self, None::<Color>, 0u8),
    {
        StyleObj { obj: self, color: None, style_map: 0 }
    }
}

} // verus!
