//! The key catalog: a fixed two-way table between symbolic key names
//! (such as `W` or `SHIFT`) and Linux input key codes.

use crate::text::is_ws;
use vstd::prelude::*;

verus! {

pub const CATALOG_LEN: usize = 85;

/// Name of the catalog entry at position `i`; entries are listed in
/// ascending lexicographic order of their names.
pub open spec fn catalog_name(i: usize) -> Seq<char> {
    match i {
        0 => seq!['0'],
        1 => seq!['1'],
        2 => seq!['2'],
        3 => seq!['3'],
        4 => seq!['4'],
        5 => seq!['5'],
        6 => seq!['6'],
        7 => seq!['7'],
        8 => seq!['8'],
        9 => seq!['9'],
        10 => seq!['A'],
        11 => seq!['A', 'L', 'T'],
        12 => seq!['A', 'P', 'O', 'S', 'T', 'R', 'O', 'P', 'H', 'E'],
        13 => seq!['B'],
        14 => seq!['B', 'A', 'C', 'K', 'S', 'L', 'A', 'S', 'H'],
        15 => seq!['B', 'A', 'C', 'K', 'S', 'P', 'A', 'C', 'E'],
        16 => seq!['C'],
        17 => seq!['C', 'A', 'P', 'S', 'L', 'O', 'C', 'K'],
        18 => seq!['C', 'O', 'M', 'M', 'A'],
        19 => seq!['C', 'T', 'R', 'L'],
        20 => seq!['D'],
        21 => seq!['D', 'E', 'L', 'E', 'T', 'E'],
        22 => seq!['D', 'O', 'T'],
        23 => seq!['D', 'O', 'W', 'N'],
        24 => seq!['E'],
        25 => seq!['E', 'N', 'D'],
        26 => seq!['E', 'N', 'T', 'E', 'R'],
        27 => seq!['E', 'Q', 'U', 'A', 'L'],
        28 => seq!['E', 'S', 'C'],
        29 => seq!['F'],
        30 => seq!['F', '1'],
        31 => seq!['F', '1', '0'],
        32 => seq!['F', '1', '1'],
        33 => seq!['F', '1', '2'],
        34 => seq!['F', '2'],
        35 => seq!['F', '3'],
        36 => seq!['F', '4'],
        37 => seq!['F', '5'],
        38 => seq!['F', '6'],
        39 => seq!['F', '7'],
        40 => seq!['F', '8'],
        41 => seq!['F', '9'],
        42 => seq!['G'],
        43 => seq!['G', 'R', 'A', 'V', 'E'],
        44 => seq!['H'],
        45 => seq!['H', 'O', 'M', 'E'],
        46 => seq!['I'],
        47 => seq!['I', 'N', 'S', 'E', 'R', 'T'],
        48 => seq!['J'],
        49 => seq!['K'],
        50 => seq!['L'],
        51 => seq!['L', 'E', 'F', 'T'],
        52 => seq!['L', 'E', 'F', 'T', 'B', 'R', 'A', 'C', 'E'],
        53 => seq!['M'],
        54 => seq!['M', 'E', 'T', 'A'],
        55 => seq!['M', 'I', 'N', 'U', 'S'],
        56 => seq!['M', 'O', 'U', 'S', 'E', '_', 'L', 'E', 'F', 'T'],
        57 => seq!['M', 'O', 'U', 'S', 'E', '_', 'M', 'I', 'D', 'D', 'L', 'E'],
        58 => seq!['M', 'O', 'U', 'S', 'E', '_', 'R', 'I', 'G', 'H', 'T'],
        59 => seq!['N'],
        60 => seq!['O'],
        61 => seq!['P'],
        62 => seq!['P', 'A', 'G', 'E', 'D', 'O', 'W', 'N'],
        63 => seq!['P', 'A', 'G', 'E', 'U', 'P'],
        64 => seq!['Q'],
        65 => seq!['R'],
        66 => seq!['R', 'A', 'L', 'T'],
        67 => seq!['R', 'C', 'T', 'R', 'L'],
        68 => seq!['R', 'I', 'G', 'H', 'T'],
        69 => seq!['R', 'I', 'G', 'H', 'T', 'B', 'R', 'A', 'C', 'E'],
        70 => seq!['R', 'S', 'H', 'I', 'F', 'T'],
        71 => seq!['S'],
        72 => seq!['S', 'E', 'M', 'I', 'C', 'O', 'L', 'O', 'N'],
        73 => seq!['S', 'H', 'I', 'F', 'T'],
        74 => seq!['S', 'L', 'A', 'S', 'H'],
        75 => seq!['S', 'P', 'A', 'C', 'E'],
        76 => seq!['T'],
        77 => seq!['T', 'A', 'B'],
        78 => seq!['U'],
        79 => seq!['U', 'P'],
        80 => seq!['V'],
        81 => seq!['W'],
        82 => seq!['X'],
        83 => seq!['Y'],
        84 => seq!['Z'],
        _ => Seq::empty(),
    }
}

/// Key code of the catalog entry at position `i`.
pub open spec fn catalog_code(i: usize) -> u16 {
    match i {
        0 => 11,
        1 => 2,
        2 => 3,
        3 => 4,
        4 => 5,
        5 => 6,
        6 => 7,
        7 => 8,
        8 => 9,
        9 => 10,
        10 => 30,
        11 => 56,
        12 => 40,
        13 => 48,
        14 => 43,
        15 => 14,
        16 => 46,
        17 => 58,
        18 => 51,
        19 => 29,
        20 => 32,
        21 => 111,
        22 => 52,
        23 => 108,
        24 => 18,
        25 => 107,
        26 => 28,
        27 => 13,
        28 => 1,
        29 => 33,
        30 => 59,
        31 => 68,
        32 => 87,
        33 => 88,
        34 => 60,
        35 => 61,
        36 => 62,
        37 => 63,
        38 => 64,
        39 => 65,
        40 => 66,
        41 => 67,
        42 => 34,
        43 => 41,
        44 => 35,
        45 => 102,
        46 => 23,
        47 => 110,
        48 => 36,
        49 => 37,
        50 => 38,
        51 => 105,
        52 => 26,
        53 => 50,
        54 => 125,
        55 => 12,
        56 => 272,
        57 => 274,
        58 => 273,
        59 => 49,
        60 => 24,
        61 => 25,
        62 => 109,
        63 => 104,
        64 => 16,
        65 => 19,
        66 => 100,
        67 => 97,
        68 => 106,
        69 => 27,
        70 => 54,
        71 => 31,
        72 => 39,
        73 => 42,
        74 => 53,
        75 => 57,
        76 => 20,
        77 => 15,
        78 => 22,
        79 => 103,
        80 => 47,
        81 => 17,
        82 => 45,
        83 => 21,
        84 => 44,
        _ => 0,
    }
}

/// Name of the catalog entry at position `i`.
pub fn entry_name(i: usize) -> (r: &'static str)
    requires
        i < CATALOG_LEN,
    ensures
        r@ == catalog_name(i),
{
    match i {
        0 => {
            proof {
                reveal_strlit("0");
            }
            assert("0"@ =~= seq!['0']);
            "0"
        },
        1 => {
            proof {
                reveal_strlit("1");
            }
            assert("1"@ =~= seq!['1']);
            "1"
        },
        2 => {
            proof {
                reveal_strlit("2");
            }
            assert("2"@ =~= seq!['2']);
            "2"
        },
        3 => {
            proof {
                reveal_strlit("3");
            }
            assert("3"@ =~= seq!['3']);
            "3"
        },
        4 => {
            proof {
                reveal_strlit("4");
            }
            assert("4"@ =~= seq!['4']);
            "4"
        },
        5 => {
            proof {
                reveal_strlit("5");
            }
            assert("5"@ =~= seq!['5']);
            "5"
        },
        6 => {
            proof {
                reveal_strlit("6");
            }
            assert("6"@ =~= seq!['6']);
            "6"
        },
        7 => {
            proof {
                reveal_strlit("7");
            }
            assert("7"@ =~= seq!['7']);
            "7"
        },
        8 => {
            proof {
                reveal_strlit("8");
            }
            assert("8"@ =~= seq!['8']);
            "8"
        },
        9 => {
            proof {
                reveal_strlit("9");
            }
            assert("9"@ =~= seq!['9']);
            "9"
        },
        10 => {
            proof {
                reveal_strlit("A");
            }
            assert("A"@ =~= seq!['A']);
            "A"
        },
        11 => {
            proof {
                reveal_strlit("ALT");
            }
            assert("ALT"@ =~= seq!['A', 'L', 'T']);
            "ALT"
        },
        12 => {
            proof {
                reveal_strlit("APOSTROPHE");
            }
            assert("APOSTROPHE"@ =~= seq!['A', 'P', 'O', 'S', 'T', 'R', 'O', 'P', 'H', 'E']);
            "APOSTROPHE"
        },
        13 => {
            proof {
                reveal_strlit("B");
            }
            assert("B"@ =~= seq!['B']);
            "B"
        },
        14 => {
            proof {
                reveal_strlit("BACKSLASH");
            }
            assert("BACKSLASH"@ =~= seq!['B', 'A', 'C', 'K', 'S', 'L', 'A', 'S', 'H']);
            "BACKSLASH"
        },
        15 => {
            proof {
                reveal_strlit("BACKSPACE");
            }
            assert("BACKSPACE"@ =~= seq!['B', 'A', 'C', 'K', 'S', 'P', 'A', 'C', 'E']);
            "BACKSPACE"
        },
        16 => {
            proof {
                reveal_strlit("C");
            }
            assert("C"@ =~= seq!['C']);
            "C"
        },
        17 => {
            proof {
                reveal_strlit("CAPSLOCK");
            }
            assert("CAPSLOCK"@ =~= seq!['C', 'A', 'P', 'S', 'L', 'O', 'C', 'K']);
            "CAPSLOCK"
        },
        18 => {
            proof {
                reveal_strlit("COMMA");
            }
            assert("COMMA"@ =~= seq!['C', 'O', 'M', 'M', 'A']);
            "COMMA"
        },
        19 => {
            proof {
                reveal_strlit("CTRL");
            }
            assert("CTRL"@ =~= seq!['C', 'T', 'R', 'L']);
            "CTRL"
        },
        20 => {
            proof {
                reveal_strlit("D");
            }
            assert("D"@ =~= seq!['D']);
            "D"
        },
        21 => {
            proof {
                reveal_strlit("DELETE");
            }
            assert("DELETE"@ =~= seq!['D', 'E', 'L', 'E', 'T', 'E']);
            "DELETE"
        },
        22 => {
            proof {
                reveal_strlit("DOT");
            }
            assert("DOT"@ =~= seq!['D', 'O', 'T']);
            "DOT"
        },
        23 => {
            proof {
                reveal_strlit("DOWN");
            }
            assert("DOWN"@ =~= seq!['D', 'O', 'W', 'N']);
            "DOWN"
        },
        24 => {
            proof {
                reveal_strlit("E");
            }
            assert("E"@ =~= seq!['E']);
            "E"
        },
        25 => {
            proof {
                reveal_strlit("END");
            }
            assert("END"@ =~= seq!['E', 'N', 'D']);
            "END"
        },
        26 => {
            proof {
                reveal_strlit("ENTER");
            }
            assert("ENTER"@ =~= seq!['E', 'N', 'T', 'E', 'R']);
            "ENTER"
        },
        27 => {
            proof {
                reveal_strlit("EQUAL");
            }
            assert("EQUAL"@ =~= seq!['E', 'Q', 'U', 'A', 'L']);
            "EQUAL"
        },
        28 => {
            proof {
                reveal_strlit("ESC");
            }
            assert("ESC"@ =~= seq!['E', 'S', 'C']);
            "ESC"
        },
        29 => {
            proof {
                reveal_strlit("F");
            }
            assert("F"@ =~= seq!['F']);
            "F"
        },
        30 => {
            proof {
                reveal_strlit("F1");
            }
            assert("F1"@ =~= seq!['F', '1']);
            "F1"
        },
        31 => {
            proof {
                reveal_strlit("F10");
            }
            assert("F10"@ =~= seq!['F', '1', '0']);
            "F10"
        },
        32 => {
            proof {
                reveal_strlit("F11");
            }
            assert("F11"@ =~= seq!['F', '1', '1']);
            "F11"
        },
        33 => {
            proof {
                reveal_strlit("F12");
            }
            assert("F12"@ =~= seq!['F', '1', '2']);
            "F12"
        },
        34 => {
            proof {
                reveal_strlit("F2");
            }
            assert("F2"@ =~= seq!['F', '2']);
            "F2"
        },
        35 => {
            proof {
                reveal_strlit("F3");
            }
            assert("F3"@ =~= seq!['F', '3']);
            "F3"
        },
        36 => {
            proof {
                reveal_strlit("F4");
            }
            assert("F4"@ =~= seq!['F', '4']);
            "F4"
        },
        37 => {
            proof {
                reveal_strlit("F5");
            }
            assert("F5"@ =~= seq!['F', '5']);
            "F5"
        },
        38 => {
            proof {
                reveal_strlit("F6");
            }
            assert("F6"@ =~= seq!['F', '6']);
            "F6"
        },
        39 => {
            proof {
                reveal_strlit("F7");
            }
            assert("F7"@ =~= seq!['F', '7']);
            "F7"
        },
        40 => {
            proof {
                reveal_strlit("F8");
            }
            assert("F8"@ =~= seq!['F', '8']);
            "F8"
        },
        41 => {
            proof {
                reveal_strlit("F9");
            }
            assert("F9"@ =~= seq!['F', '9']);
            "F9"
        },
        42 => {
            proof {
                reveal_strlit("G");
            }
            assert("G"@ =~= seq!['G']);
            "G"
        },
        43 => {
            proof {
                reveal_strlit("GRAVE");
            }
            assert("GRAVE"@ =~= seq!['G', 'R', 'A', 'V', 'E']);
            "GRAVE"
        },
        44 => {
            proof {
                reveal_strlit("H");
            }
            assert("H"@ =~= seq!['H']);
            "H"
        },
        45 => {
            proof {
                reveal_strlit("HOME");
            }
            assert("HOME"@ =~= seq!['H', 'O', 'M', 'E']);
            "HOME"
        },
        46 => {
            proof {
                reveal_strlit("I");
            }
            assert("I"@ =~= seq!['I']);
            "I"
        },
        47 => {
            proof {
                reveal_strlit("INSERT");
            }
            assert("INSERT"@ =~= seq!['I', 'N', 'S', 'E', 'R', 'T']);
            "INSERT"
        },
        48 => {
            proof {
                reveal_strlit("J");
            }
            assert("J"@ =~= seq!['J']);
            "J"
        },
        49 => {
            proof {
                reveal_strlit("K");
            }
            assert("K"@ =~= seq!['K']);
            "K"
        },
        50 => {
            proof {
                reveal_strlit("L");
            }
            assert("L"@ =~= seq!['L']);
            "L"
        },
        51 => {
            proof {
                reveal_strlit("LEFT");
            }
            assert("LEFT"@ =~= seq!['L', 'E', 'F', 'T']);
            "LEFT"
        },
        52 => {
            proof {
                reveal_strlit("LEFTBRACE");
            }
            assert("LEFTBRACE"@ =~= seq!['L', 'E', 'F', 'T', 'B', 'R', 'A', 'C', 'E']);
            "LEFTBRACE"
        },
        53 => {
            proof {
                reveal_strlit("M");
            }
            assert("M"@ =~= seq!['M']);
            "M"
        },
        54 => {
            proof {
                reveal_strlit("META");
            }
            assert("META"@ =~= seq!['M', 'E', 'T', 'A']);
            "META"
        },
        55 => {
            proof {
                reveal_strlit("MINUS");
            }
            assert("MINUS"@ =~= seq!['M', 'I', 'N', 'U', 'S']);
            "MINUS"
        },
        56 => {
            proof {
                reveal_strlit("MOUSE_LEFT");
            }
            assert("MOUSE_LEFT"@ =~= seq!['M', 'O', 'U', 'S', 'E', '_', 'L', 'E', 'F', 'T']);
            "MOUSE_LEFT"
        },
        57 => {
            proof {
                reveal_strlit("MOUSE_MIDDLE");
            }
            assert("MOUSE_MIDDLE"@ =~= seq!['M', 'O', 'U', 'S', 'E', '_', 'M', 'I', 'D', 'D', 'L', 'E']);
            "MOUSE_MIDDLE"
        },
        58 => {
            proof {
                reveal_strlit("MOUSE_RIGHT");
            }
            assert("MOUSE_RIGHT"@ =~= seq!['M', 'O', 'U', 'S', 'E', '_', 'R', 'I', 'G', 'H', 'T']);
            "MOUSE_RIGHT"
        },
        59 => {
            proof {
                reveal_strlit("N");
            }
            assert("N"@ =~= seq!['N']);
            "N"
        },
        60 => {
            proof {
                reveal_strlit("O");
            }
            assert("O"@ =~= seq!['O']);
            "O"
        },
        61 => {
            proof {
                reveal_strlit("P");
            }
            assert("P"@ =~= seq!['P']);
            "P"
        },
        62 => {
            proof {
                reveal_strlit("PAGEDOWN");
            }
            assert("PAGEDOWN"@ =~= seq!['P', 'A', 'G', 'E', 'D', 'O', 'W', 'N']);
            "PAGEDOWN"
        },
        63 => {
            proof {
                reveal_strlit("PAGEUP");
            }
            assert("PAGEUP"@ =~= seq!['P', 'A', 'G', 'E', 'U', 'P']);
            "PAGEUP"
        },
        64 => {
            proof {
                reveal_strlit("Q");
            }
            assert("Q"@ =~= seq!['Q']);
            "Q"
        },
        65 => {
            proof {
                reveal_strlit("R");
            }
            assert("R"@ =~= seq!['R']);
            "R"
        },
        66 => {
            proof {
                reveal_strlit("RALT");
            }
            assert("RALT"@ =~= seq!['R', 'A', 'L', 'T']);
            "RALT"
        },
        67 => {
            proof {
                reveal_strlit("RCTRL");
            }
            assert("RCTRL"@ =~= seq!['R', 'C', 'T', 'R', 'L']);
            "RCTRL"
        },
        68 => {
            proof {
                reveal_strlit("RIGHT");
            }
            assert("RIGHT"@ =~= seq!['R', 'I', 'G', 'H', 'T']);
            "RIGHT"
        },
        69 => {
            proof {
                reveal_strlit("RIGHTBRACE");
            }
            assert("RIGHTBRACE"@ =~= seq!['R', 'I', 'G', 'H', 'T', 'B', 'R', 'A', 'C', 'E']);
            "RIGHTBRACE"
        },
        70 => {
            proof {
                reveal_strlit("RSHIFT");
            }
            assert("RSHIFT"@ =~= seq!['R', 'S', 'H', 'I', 'F', 'T']);
            "RSHIFT"
        },
        71 => {
            proof {
                reveal_strlit("S");
            }
            assert("S"@ =~= seq!['S']);
            "S"
        },
        72 => {
            proof {
                reveal_strlit("SEMICOLON");
            }
            assert("SEMICOLON"@ =~= seq!['S', 'E', 'M', 'I', 'C', 'O', 'L', 'O', 'N']);
            "SEMICOLON"
        },
        73 => {
            proof {
                reveal_strlit("SHIFT");
            }
            assert("SHIFT"@ =~= seq!['S', 'H', 'I', 'F', 'T']);
            "SHIFT"
        },
        74 => {
            proof {
                reveal_strlit("SLASH");
            }
            assert("SLASH"@ =~= seq!['S', 'L', 'A', 'S', 'H']);
            "SLASH"
        },
        75 => {
            proof {
                reveal_strlit("SPACE");
            }
            assert("SPACE"@ =~= seq!['S', 'P', 'A', 'C', 'E']);
            "SPACE"
        },
        76 => {
            proof {
                reveal_strlit("T");
            }
            assert("T"@ =~= seq!['T']);
            "T"
        },
        77 => {
            proof {
                reveal_strlit("TAB");
            }
            assert("TAB"@ =~= seq!['T', 'A', 'B']);
            "TAB"
        },
        78 => {
            proof {
                reveal_strlit("U");
            }
            assert("U"@ =~= seq!['U']);
            "U"
        },
        79 => {
            proof {
                reveal_strlit("UP");
            }
            assert("UP"@ =~= seq!['U', 'P']);
            "UP"
        },
        80 => {
            proof {
                reveal_strlit("V");
            }
            assert("V"@ =~= seq!['V']);
            "V"
        },
        81 => {
            proof {
                reveal_strlit("W");
            }
            assert("W"@ =~= seq!['W']);
            "W"
        },
        82 => {
            proof {
                reveal_strlit("X");
            }
            assert("X"@ =~= seq!['X']);
            "X"
        },
        83 => {
            proof {
                reveal_strlit("Y");
            }
            assert("Y"@ =~= seq!['Y']);
            "Y"
        },
        84 => {
            proof {
                reveal_strlit("Z");
            }
            assert("Z"@ =~= seq!['Z']);
            "Z"
        },
        _ => "",
    }
}

/// Key code of the catalog entry at position `i`.
pub fn entry_code(i: usize) -> (r: u16)
    requires
        i < CATALOG_LEN,
    ensures
        r == catalog_code(i),
{
    match i {
        0 => 11,
        1 => 2,
        2 => 3,
        3 => 4,
        4 => 5,
        5 => 6,
        6 => 7,
        7 => 8,
        8 => 9,
        9 => 10,
        10 => 30,
        11 => 56,
        12 => 40,
        13 => 48,
        14 => 43,
        15 => 14,
        16 => 46,
        17 => 58,
        18 => 51,
        19 => 29,
        20 => 32,
        21 => 111,
        22 => 52,
        23 => 108,
        24 => 18,
        25 => 107,
        26 => 28,
        27 => 13,
        28 => 1,
        29 => 33,
        30 => 59,
        31 => 68,
        32 => 87,
        33 => 88,
        34 => 60,
        35 => 61,
        36 => 62,
        37 => 63,
        38 => 64,
        39 => 65,
        40 => 66,
        41 => 67,
        42 => 34,
        43 => 41,
        44 => 35,
        45 => 102,
        46 => 23,
        47 => 110,
        48 => 36,
        49 => 37,
        50 => 38,
        51 => 105,
        52 => 26,
        53 => 50,
        54 => 125,
        55 => 12,
        56 => 272,
        57 => 274,
        58 => 273,
        59 => 49,
        60 => 24,
        61 => 25,
        62 => 109,
        63 => 104,
        64 => 16,
        65 => 19,
        66 => 100,
        67 => 97,
        68 => 106,
        69 => 27,
        70 => 54,
        71 => 31,
        72 => 39,
        73 => 42,
        74 => 53,
        75 => 57,
        76 => 20,
        77 => 15,
        78 => 22,
        79 => 103,
        80 => 47,
        81 => 17,
        82 => 45,
        83 => 21,
        84 => 44,
        _ => 0,
    }
}

/// Code of the first entry at or after position `i` whose name is `name`.
pub open spec fn find_name(name: Seq<char>, i: int) -> Option<u16>
    decreases CATALOG_LEN - i,
{
    if 0 <= i < CATALOG_LEN {
        if catalog_name(i as usize) == name {
            Some(catalog_code(i as usize))
        } else {
            find_name(name, i + 1)
        }
    } else {
        None
    }
}

/// Name of the first entry at or after position `i` whose code is `code`.
pub open spec fn find_code(code: u16, i: int) -> Option<Seq<char>>
    decreases CATALOG_LEN - i,
{
    if 0 <= i < CATALOG_LEN {
        if catalog_code(i as usize) == code {
            Some(catalog_name(i as usize))
        } else {
            find_code(code, i + 1)
        }
    } else {
        None
    }
}

/// The key code that a name stands for, if the catalog knows the name.
pub open spec fn code_of_name(name: Seq<char>) -> Option<u16> {
    find_name(name, 0)
}

/// The canonical name of a key code, if the catalog holds the code.
pub open spec fn name_of_code(code: u16) -> Option<Seq<char>> {
    find_code(code, 0)
}

/// Whether two strings hold the same characters.
pub fn str_eq(a: &str, b: &str) -> (r: bool)
    ensures
        r == (a@ == b@),
{
    let n = a.unicode_len();
    let m = b.unicode_len();
    if n != m {
        return false;
    }
    let mut i: usize = 0;
    while i < n
        invariant
            n == a@.len(),
            m == b@.len(),
            n == m,
            i <= n,
            forall|k: int| 0 <= k < i ==> a@[k] == b@[k],
        decreases n - i,
    {
        if a.get_char(i) != b.get_char(i) {
            return false;
        }
        i = i + 1;
    }
    assert(a@ =~= b@);
    true
}

/// Looks a key name up in the catalog; the comparison is case-sensitive.
pub fn name_to_keycode(name: &str) -> (r: Option<u16>)
    ensures
        r == code_of_name(name@),
{
    let mut i: usize = 0;
    while i < CATALOG_LEN
        invariant
            i <= CATALOG_LEN,
            code_of_name(name@) == find_name(name@, i as int),
        decreases CATALOG_LEN - i,
    {
        if str_eq(name, entry_name(i)) {
            return Some(entry_code(i));
        }
        i = i + 1;
    }
    None
}

/// The canonical name of a key code, if the catalog holds it.
pub fn keycode_to_name(code: u16) -> (r: Option<&'static str>)
    ensures
        match r {
            Some(s) => name_of_code(code) == Some(s@),
            None => name_of_code(code) is None,
        },
{
    let mut i: usize = 0;
    while i < CATALOG_LEN
        invariant
            i <= CATALOG_LEN,
            name_of_code(code) == find_code(code, i as int),
        decreases CATALOG_LEN - i,
    {
        if entry_code(i) == code {
            return Some(entry_name(i));
        }
        i = i + 1;
    }
    None
}

/// Strict lexicographic order on character sequences.
pub open spec fn lex_lt(a: Seq<char>, b: Seq<char>) -> bool
    decreases a.len(),
{
    if b.len() == 0 {
        false
    } else if a.len() == 0 {
        true
    } else if a[0] != b[0] {
        a[0] < b[0]
    } else {
        lex_lt(a.drop_first(), b.drop_first())
    }
}

/// The characters that catalog names are made of.
pub open spec fn name_char(c: char) -> bool {
    ('A' <= c && c <= 'Z') || ('0' <= c && c <= '9') || c == '_'
}

pub open spec fn well_formed_name(s: Seq<char>) -> bool {
    s.len() > 0 && forall|k: int| 0 <= k < s.len() ==> name_char(#[trigger] s[k])
}

proof fn lemma_lex_transitive(a: Seq<char>, b: Seq<char>, c: Seq<char>)
    requires
        lex_lt(a, b),
        lex_lt(b, c),
    ensures
        lex_lt(a, c),
    decreases a.len(),
{
    if a.len() > 0 && b.len() > 0 && c.len() > 0 && a[0] == b[0] && b[0] == c[0] {
        lemma_lex_transitive(a.drop_first(), b.drop_first(), c.drop_first());
    }
}

proof fn lemma_lex_irreflexive(a: Seq<char>)
    ensures
        !lex_lt(a, a),
    decreases a.len(),
{
    if a.len() > 0 {
        lemma_lex_irreflexive(a.drop_first());
    }
}

/// Neighbouring entries of the catalog are in ascending order of name.
proof fn lemma_catalog_adjacent()
    ensures
        forall|i: int| 0 <= i < CATALOG_LEN - 1 ==> lex_lt(
            #[trigger] catalog_name(i as usize),
            catalog_name((i + 1) as usize),
        ),
{
    reveal_with_fuel(lex_lt, 8);
    assert(lex_lt(catalog_name(0), catalog_name(1)));
    assert(lex_lt(catalog_name(1), catalog_name(2)));
    assert(lex_lt(catalog_name(2), catalog_name(3)));
    assert(lex_lt(catalog_name(3), catalog_name(4)));
    assert(lex_lt(catalog_name(4), catalog_name(5)));
    assert(lex_lt(catalog_name(5), catalog_name(6)));
    assert(lex_lt(catalog_name(6), catalog_name(7)));
    assert(lex_lt(catalog_name(7), catalog_name(8)));
    assert(lex_lt(catalog_name(8), catalog_name(9)));
    assert(lex_lt(catalog_name(9), catalog_name(10)));
    assert(lex_lt(catalog_name(10), catalog_name(11)));
    assert(lex_lt(catalog_name(11), catalog_name(12)));
    assert(lex_lt(catalog_name(12), catalog_name(13)));
    assert(lex_lt(catalog_name(13), catalog_name(14)));
    assert(lex_lt(catalog_name(14), catalog_name(15)));
    assert(lex_lt(catalog_name(15), catalog_name(16)));
    assert(lex_lt(catalog_name(16), catalog_name(17)));
    assert(lex_lt(catalog_name(17), catalog_name(18)));
    assert(lex_lt(catalog_name(18), catalog_name(19)));
    assert(lex_lt(catalog_name(19), catalog_name(20)));
    assert(lex_lt(catalog_name(20), catalog_name(21)));
    assert(lex_lt(catalog_name(21), catalog_name(22)));
    assert(lex_lt(catalog_name(22), catalog_name(23)));
    assert(lex_lt(catalog_name(23), catalog_name(24)));
    assert(lex_lt(catalog_name(24), catalog_name(25)));
    assert(lex_lt(catalog_name(25), catalog_name(26)));
    assert(lex_lt(catalog_name(26), catalog_name(27)));
    assert(lex_lt(catalog_name(27), catalog_name(28)));
    assert(lex_lt(catalog_name(28), catalog_name(29)));
    assert(lex_lt(catalog_name(29), catalog_name(30)));
    assert(lex_lt(catalog_name(30), catalog_name(31)));
    assert(lex_lt(catalog_name(31), catalog_name(32)));
    assert(lex_lt(catalog_name(32), catalog_name(33)));
    assert(lex_lt(catalog_name(33), catalog_name(34)));
    assert(lex_lt(catalog_name(34), catalog_name(35)));
    assert(lex_lt(catalog_name(35), catalog_name(36)));
    assert(lex_lt(catalog_name(36), catalog_name(37)));
    assert(lex_lt(catalog_name(37), catalog_name(38)));
    assert(lex_lt(catalog_name(38), catalog_name(39)));
    assert(lex_lt(catalog_name(39), catalog_name(40)));
    assert(lex_lt(catalog_name(40), catalog_name(41)));
    assert(lex_lt(catalog_name(41), catalog_name(42)));
    assert(lex_lt(catalog_name(42), catalog_name(43)));
    assert(lex_lt(catalog_name(43), catalog_name(44)));
    assert(lex_lt(catalog_name(44), catalog_name(45)));
    assert(lex_lt(catalog_name(45), catalog_name(46)));
    assert(lex_lt(catalog_name(46), catalog_name(47)));
    assert(lex_lt(catalog_name(47), catalog_name(48)));
    assert(lex_lt(catalog_name(48), catalog_name(49)));
    assert(lex_lt(catalog_name(49), catalog_name(50)));
    assert(lex_lt(catalog_name(50), catalog_name(51)));
    assert(lex_lt(catalog_name(51), catalog_name(52)));
    assert(lex_lt(catalog_name(52), catalog_name(53)));
    assert(lex_lt(catalog_name(53), catalog_name(54)));
    assert(lex_lt(catalog_name(54), catalog_name(55)));
    assert(lex_lt(catalog_name(55), catalog_name(56)));
    assert(lex_lt(catalog_name(56), catalog_name(57)));
    assert(lex_lt(catalog_name(57), catalog_name(58)));
    assert(lex_lt(catalog_name(58), catalog_name(59)));
    assert(lex_lt(catalog_name(59), catalog_name(60)));
    assert(lex_lt(catalog_name(60), catalog_name(61)));
    assert(lex_lt(catalog_name(61), catalog_name(62)));
    assert(lex_lt(catalog_name(62), catalog_name(63)));
    assert(lex_lt(catalog_name(63), catalog_name(64)));
    assert(lex_lt(catalog_name(64), catalog_name(65)));
    assert(lex_lt(catalog_name(65), catalog_name(66)));
    assert(lex_lt(catalog_name(66), catalog_name(67)));
    assert(lex_lt(catalog_name(67), catalog_name(68)));
    assert(lex_lt(catalog_name(68), catalog_name(69)));
    assert(lex_lt(catalog_name(69), catalog_name(70)));
    assert(lex_lt(catalog_name(70), catalog_name(71)));
    assert(lex_lt(catalog_name(71), catalog_name(72)));
    assert(lex_lt(catalog_name(72), catalog_name(73)));
    assert(lex_lt(catalog_name(73), catalog_name(74)));
    assert(lex_lt(catalog_name(74), catalog_name(75)));
    assert(lex_lt(catalog_name(75), catalog_name(76)));
    assert(lex_lt(catalog_name(76), catalog_name(77)));
    assert(lex_lt(catalog_name(77), catalog_name(78)));
    assert(lex_lt(catalog_name(78), catalog_name(79)));
    assert(lex_lt(catalog_name(79), catalog_name(80)));
    assert(lex_lt(catalog_name(80), catalog_name(81)));
    assert(lex_lt(catalog_name(81), catalog_name(82)));
    assert(lex_lt(catalog_name(82), catalog_name(83)));
    assert(lex_lt(catalog_name(83), catalog_name(84)));
}

/// The catalog is in strictly ascending order of name.
pub proof fn lemma_catalog_sorted(i: int, j: int)
    requires
        0 <= i < j < CATALOG_LEN,
    ensures
        lex_lt(catalog_name(i as usize), catalog_name(j as usize)),
    decreases j - i,
{
    lemma_catalog_adjacent();
    if i + 1 < j {
        lemma_catalog_sorted(i + 1, j);
        lemma_lex_transitive(
            catalog_name(i as usize),
            catalog_name((i + 1) as usize),
            catalog_name(j as usize),
        );
    }
}

proof fn lemma_find_entry(i: int, j: int)
    requires
        0 <= j <= i < CATALOG_LEN,
    ensures
        find_name(catalog_name(i as usize), j) == Some(catalog_code(i as usize)),
    decreases i - j,
{
    if j < i {
        lemma_catalog_sorted(j, i);
        lemma_lex_irreflexive(catalog_name(i as usize));
        lemma_find_entry(i, j + 1);
    }
}

proof fn lemma_catalog_well_formed()
    ensures
        forall|i: int| 0 <= i < CATALOG_LEN ==> well_formed_name(#[trigger] catalog_name(i as usize)),
{
}

/// Every name of the catalog is non-empty, holds neither whitespace nor `+`,
/// and is looked up as the code it stands beside.
pub proof fn lemma_catalog_names(j: int)
    requires
        0 <= j < CATALOG_LEN,
    ensures
        catalog_name(j as usize).len() > 0,
        forall|k: int|
            0 <= k < catalog_name(j as usize).len() ==> !is_ws(#[trigger] catalog_name(j as usize)[k])
                && catalog_name(j as usize)[k] != '+',
        code_of_name(catalog_name(j as usize)) == Some(catalog_code(j as usize)),
{
    lemma_catalog_well_formed();
    lemma_find_entry(j, 0);
    let s = catalog_name(j as usize);
    assert(well_formed_name(s));
    assert forall|k: int| 0 <= k < s.len() implies !is_ws(#[trigger] s[k]) && s[k] != '+' by {
        assert(name_char(s[k]));
    }
}

} // verus!
