//! The symbol alphabet of the chart: two hundred glyphs, assigned in
//! order to the used colors of the legend. The assignment is a bijection
//! between the used colors and the first symbols of the alphabet.

use vstd::prelude::*;

verus! {

/// The glyph at position `i` of the fixed symbol alphabet.
pub open spec fn symbol_at(i: int) -> char {
    if i == 0 {
        'A'
    } else if i == 1 {
        'B'
    } else if i == 2 {
        'C'
    } else if i == 3 {
        'D'
    } else if i == 4 {
        'E'
    } else if i == 5 {
        'F'
    } else if i == 6 {
        'G'
    } else if i == 7 {
        'H'
    } else if i == 8 {
        'I'
    } else if i == 9 {
        'J'
    } else if i == 10 {
        'K'
    } else if i == 11 {
        'L'
    } else if i == 12 {
        'M'
    } else if i == 13 {
        'N'
    } else if i == 14 {
        'O'
    } else if i == 15 {
        'P'
    } else if i == 16 {
        'Q'
    } else if i == 17 {
        'R'
    } else if i == 18 {
        'S'
    } else if i == 19 {
        'T'
    } else if i == 20 {
        'U'
    } else if i == 21 {
        'V'
    } else if i == 22 {
        'W'
    } else if i == 23 {
        'X'
    } else if i == 24 {
        'Y'
    } else if i == 25 {
        'Z'
    } else if i == 26 {
        'a'
    } else if i == 27 {
        'b'
    } else if i == 28 {
        'd'
    } else if i == 29 {
        'e'
    } else if i == 30 {
        'f'
    } else if i == 31 {
        'g'
    } else if i == 32 {
        'h'
    } else if i == 33 {
        'i'
    } else if i == 34 {
        'j'
    } else if i == 35 {
        'k'
    } else if i == 36 {
        'm'
    } else if i == 37 {
        'n'
    } else if i == 38 {
        'o'
    } else if i == 39 {
        'p'
    } else if i == 40 {
        'q'
    } else if i == 41 {
        'r'
    } else if i == 42 {
        't'
    } else if i == 43 {
        'u'
    } else if i == 44 {
        'v'
    } else if i == 45 {
        'w'
    } else if i == 46 {
        'y'
    } else if i == 47 {
        '1'
    } else if i == 48 {
        '2'
    } else if i == 49 {
        '3'
    } else if i == 50 {
        '4'
    } else if i == 51 {
        '5'
    } else if i == 52 {
        '6'
    } else if i == 53 {
        '7'
    } else if i == 54 {
        '8'
    } else if i == 55 {
        '9'
    } else if i == 56 {
        '0'
    } else if i == 57 {
        '❶'
    } else if i == 58 {
        '❷'
    } else if i == 59 {
        '❸'
    } else if i == 60 {
        '❹'
    } else if i == 61 {
        '❺'
    } else if i == 62 {
        '❻'
    } else if i == 63 {
        '❼'
    } else if i == 64 {
        '❽'
    } else if i == 65 {
        '❾'
    } else if i == 66 {
        '❿'
    } else if i == 67 {
        '➀'
    } else if i == 68 {
        '➁'
    } else if i == 69 {
        '➂'
    } else if i == 70 {
        '➃'
    } else if i == 71 {
        '➄'
    } else if i == 72 {
        '➅'
    } else if i == 73 {
        '➆'
    } else if i == 74 {
        '➇'
    } else if i == 75 {
        '➈'
    } else if i == 76 {
        '➉'
    } else if i == 77 {
        '~'
    } else if i == 78 {
        '!'
    } else if i == 79 {
        '@'
    } else if i == 80 {
        '#'
    } else if i == 81 {
        '$'
    } else if i == 82 {
        '%'
    } else if i == 83 {
        '&'
    } else if i == 84 {
        '*'
    } else if i == 85 {
        '+'
    } else if i == 86 {
        '='
    } else if i == 87 {
        '✇'
    } else if i == 88 {
        '✈'
    } else if i == 89 {
        '✉'
    } else if i == 90 {
        '✎'
    } else if i == 91 {
        '✒'
    } else if i == 92 {
        '✓'
    } else if i == 93 {
        '✖'
    } else if i == 94 {
        '✜'
    } else if i == 95 {
        '✢'
    } else if i == 96 {
        '✥'
    } else if i == 97 {
        '✦'
    } else if i == 98 {
        '✩'
    } else if i == 99 {
        '✲'
    } else if i == 100 {
        '✵'
    } else if i == 101 {
        '✹'
    } else if i == 102 {
        '✺'
    } else if i == 103 {
        '✼'
    } else if i == 104 {
        '✾'
    } else if i == 105 {
        '✿'
    } else if i == 106 {
        '❀'
    } else if i == 107 {
        '❁'
    } else if i == 108 {
        '❄'
    } else if i == 109 {
        '❈'
    } else if i == 110 {
        '❍'
    } else if i == 111 {
        '❑'
    } else if i == 112 {
        '❖'
    } else if i == 113 {
        '❢'
    } else if i == 114 {
        '❤'
    } else if i == 115 {
        '❦'
    } else if i == 116 {
        '➔'
    } else if i == 117 {
        '➘'
    } else if i == 118 {
        '➢'
    } else if i == 119 {
        '➥'
    } else if i == 120 {
        '➲'
    } else if i == 121 {
        '➳'
    } else if i == 122 {
        '➺'
    } else if i == 123 {
        '➾'
    } else if i == 124 {
        '◒'
    } else if i == 125 {
        '◐'
    } else if i == 126 {
        '◍'
    } else if i == 127 {
        '◌'
    } else if i == 128 {
        '◉'
    } else if i == 129 {
        '◈'
    } else if i == 130 {
        '▤'
    } else if i == 131 {
        '▧'
    } else if i == 132 {
        '◆'
    } else if i == 133 {
        '◇'
    } else if i == 134 {
        '◔'
    } else if i == 135 {
        '◗'
    } else if i == 136 {
        '◘'
    } else if i == 137 {
        '⌘'
    } else if i == 138 {
        '⍾'
    } else if i == 139 {
        '⏏'
    } else if i == 140 {
        '␥'
    } else if i == 141 {
        '◩'
    } else if i == 142 {
        '☂'
    } else if i == 143 {
        '☘'
    } else if i == 144 {
        '⟰'
    } else if i == 145 {
        '⟲'
    } else if i == 146 {
        '⟴'
    } else if i == 147 {
        '⤀'
    } else if i == 148 {
        '⤄'
    } else if i == 149 {
        '⤒'
    } else if i == 150 {
        '⤙'
    } else if i == 151 {
        '⤝'
    } else if i == 152 {
        '⤡'
    } else if i == 153 {
        '⤧'
    } else if i == 154 {
        '⤴'
    } else if i == 155 {
        '⤹'
    } else if i == 156 {
        '⥋'
    } else if i == 157 {
        '⥐'
    } else if i == 158 {
        '⥽'
    } else if i == 159 {
        '⦁'
    } else if i == 160 {
        '⦂'
    } else if i == 161 {
        '⦊'
    } else if i == 162 {
        '⦔'
    } else if i == 163 {
        '⦛'
    } else if i == 164 {
        '⦵'
    } else if i == 165 {
        '⦶'
    } else if i == 166 {
        '⩁'
    } else if i == 167 {
        '⦸'
    } else if i == 168 {
        '⦹'
    } else if i == 169 {
        '⩐'
    } else if i == 170 {
        '⦻'
    } else if i == 171 {
        '⦼'
    } else if i == 172 {
        '⦾'
    } else if i == 173 {
        '⧀'
    } else if i == 174 {
        '⧄'
    } else if i == 175 {
        '⧆'
    } else if i == 176 {
        '⩆'
    } else if i == 177 {
        '⩌'
    } else if i == 178 {
        '⩎'
    } else if i == 179 {
        '⧍'
    } else if i == 180 {
        '⧑'
    } else if i == 181 {
        '⧖'
    } else if i == 182 {
        '⧜'
    } else if i == 183 {
        '⧝'
    } else if i == 184 {
        '⧞'
    } else if i == 185 {
        '⧢'
    } else if i == 186 {
        '⧥'
    } else if i == 187 {
        '⧨'
    } else if i == 188 {
        '⧫'
    } else if i == 189 {
        '⧬'
    } else if i == 190 {
        '⧮'
    } else if i == 191 {
        '⧲'
    } else if i == 192 {
        '⨀'
    } else if i == 193 {
        '⨁'
    } else if i == 194 {
        '⨇'
    } else if i == 195 {
        '⨊'
    } else if i == 196 {
        '⨎'
    } else if i == 197 {
        '⨳'
    } else if i == 198 {
        '⨷'
    } else if i == 199 {
        '⨿'
    } else {
        ' '
    }
}

/// The position of a glyph in the alphabet, `-1` for a glyph outside it.
/// This is the inverse of `symbol_at` and witnesses that no glyph appears
/// twice.
pub open spec fn symbol_index(c: char) -> int {
    if c == 'A' {
        0
    } else if c == 'B' {
        1
    } else if c == 'C' {
        2
    } else if c == 'D' {
        3
    } else if c == 'E' {
        4
    } else if c == 'F' {
        5
    } else if c == 'G' {
        6
    } else if c == 'H' {
        7
    } else if c == 'I' {
        8
    } else if c == 'J' {
        9
    } else if c == 'K' {
        10
    } else if c == 'L' {
        11
    } else if c == 'M' {
        12
    } else if c == 'N' {
        13
    } else if c == 'O' {
        14
    } else if c == 'P' {
        15
    } else if c == 'Q' {
        16
    } else if c == 'R' {
        17
    } else if c == 'S' {
        18
    } else if c == 'T' {
        19
    } else if c == 'U' {
        20
    } else if c == 'V' {
        21
    } else if c == 'W' {
        22
    } else if c == 'X' {
        23
    } else if c == 'Y' {
        24
    } else if c == 'Z' {
        25
    } else if c == 'a' {
        26
    } else if c == 'b' {
        27
    } else if c == 'd' {
        28
    } else if c == 'e' {
        29
    } else if c == 'f' {
        30
    } else if c == 'g' {
        31
    } else if c == 'h' {
        32
    } else if c == 'i' {
        33
    } else if c == 'j' {
        34
    } else if c == 'k' {
        35
    } else if c == 'm' {
        36
    } else if c == 'n' {
        37
    } else if c == 'o' {
        38
    } else if c == 'p' {
        39
    } else if c == 'q' {
        40
    } else if c == 'r' {
        41
    } else if c == 't' {
        42
    } else if c == 'u' {
        43
    } else if c == 'v' {
        44
    } else if c == 'w' {
        45
    } else if c == 'y' {
        46
    } else if c == '1' {
        47
    } else if c == '2' {
        48
    } else if c == '3' {
        49
    } else if c == '4' {
        50
    } else if c == '5' {
        51
    } else if c == '6' {
        52
    } else if c == '7' {
        53
    } else if c == '8' {
        54
    } else if c == '9' {
        55
    } else if c == '0' {
        56
    } else if c == '❶' {
        57
    } else if c == '❷' {
        58
    } else if c == '❸' {
        59
    } else if c == '❹' {
        60
    } else if c == '❺' {
        61
    } else if c == '❻' {
        62
    } else if c == '❼' {
        63
    } else if c == '❽' {
        64
    } else if c == '❾' {
        65
    } else if c == '❿' {
        66
    } else if c == '➀' {
        67
    } else if c == '➁' {
        68
    } else if c == '➂' {
        69
    } else if c == '➃' {
        70
    } else if c == '➄' {
        71
    } else if c == '➅' {
        72
    } else if c == '➆' {
        73
    } else if c == '➇' {
        74
    } else if c == '➈' {
        75
    } else if c == '➉' {
        76
    } else if c == '~' {
        77
    } else if c == '!' {
        78
    } else if c == '@' {
        79
    } else if c == '#' {
        80
    } else if c == '$' {
        81
    } else if c == '%' {
        82
    } else if c == '&' {
        83
    } else if c == '*' {
        84
    } else if c == '+' {
        85
    } else if c == '=' {
        86
    } else if c == '✇' {
        87
    } else if c == '✈' {
        88
    } else if c == '✉' {
        89
    } else if c == '✎' {
        90
    } else if c == '✒' {
        91
    } else if c == '✓' {
        92
    } else if c == '✖' {
        93
    } else if c == '✜' {
        94
    } else if c == '✢' {
        95
    } else if c == '✥' {
        96
    } else if c == '✦' {
        97
    } else if c == '✩' {
        98
    } else if c == '✲' {
        99
    } else if c == '✵' {
        100
    } else if c == '✹' {
        101
    } else if c == '✺' {
        102
    } else if c == '✼' {
        103
    } else if c == '✾' {
        104
    } else if c == '✿' {
        105
    } else if c == '❀' {
        106
    } else if c == '❁' {
        107
    } else if c == '❄' {
        108
    } else if c == '❈' {
        109
    } else if c == '❍' {
        110
    } else if c == '❑' {
        111
    } else if c == '❖' {
        112
    } else if c == '❢' {
        113
    } else if c == '❤' {
        114
    } else if c == '❦' {
        115
    } else if c == '➔' {
        116
    } else if c == '➘' {
        117
    } else if c == '➢' {
        118
    } else if c == '➥' {
        119
    } else if c == '➲' {
        120
    } else if c == '➳' {
        121
    } else if c == '➺' {
        122
    } else if c == '➾' {
        123
    } else if c == '◒' {
        124
    } else if c == '◐' {
        125
    } else if c == '◍' {
        126
    } else if c == '◌' {
        127
    } else if c == '◉' {
        128
    } else if c == '◈' {
        129
    } else if c == '▤' {
        130
    } else if c == '▧' {
        131
    } else if c == '◆' {
        132
    } else if c == '◇' {
        133
    } else if c == '◔' {
        134
    } else if c == '◗' {
        135
    } else if c == '◘' {
        136
    } else if c == '⌘' {
        137
    } else if c == '⍾' {
        138
    } else if c == '⏏' {
        139
    } else if c == '␥' {
        140
    } else if c == '◩' {
        141
    } else if c == '☂' {
        142
    } else if c == '☘' {
        143
    } else if c == '⟰' {
        144
    } else if c == '⟲' {
        145
    } else if c == '⟴' {
        146
    } else if c == '⤀' {
        147
    } else if c == '⤄' {
        148
    } else if c == '⤒' {
        149
    } else if c == '⤙' {
        150
    } else if c == '⤝' {
        151
    } else if c == '⤡' {
        152
    } else if c == '⤧' {
        153
    } else if c == '⤴' {
        154
    } else if c == '⤹' {
        155
    } else if c == '⥋' {
        156
    } else if c == '⥐' {
        157
    } else if c == '⥽' {
        158
    } else if c == '⦁' {
        159
    } else if c == '⦂' {
        160
    } else if c == '⦊' {
        161
    } else if c == '⦔' {
        162
    } else if c == '⦛' {
        163
    } else if c == '⦵' {
        164
    } else if c == '⦶' {
        165
    } else if c == '⩁' {
        166
    } else if c == '⦸' {
        167
    } else if c == '⦹' {
        168
    } else if c == '⩐' {
        169
    } else if c == '⦻' {
        170
    } else if c == '⦼' {
        171
    } else if c == '⦾' {
        172
    } else if c == '⧀' {
        173
    } else if c == '⧄' {
        174
    } else if c == '⧆' {
        175
    } else if c == '⩆' {
        176
    } else if c == '⩌' {
        177
    } else if c == '⩎' {
        178
    } else if c == '⧍' {
        179
    } else if c == '⧑' {
        180
    } else if c == '⧖' {
        181
    } else if c == '⧜' {
        182
    } else if c == '⧝' {
        183
    } else if c == '⧞' {
        184
    } else if c == '⧢' {
        185
    } else if c == '⧥' {
        186
    } else if c == '⧨' {
        187
    } else if c == '⧫' {
        188
    } else if c == '⧬' {
        189
    } else if c == '⧮' {
        190
    } else if c == '⧲' {
        191
    } else if c == '⨀' {
        192
    } else if c == '⨁' {
        193
    } else if c == '⨇' {
        194
    } else if c == '⨊' {
        195
    } else if c == '⨎' {
        196
    } else if c == '⨳' {
        197
    } else if c == '⨷' {
        198
    } else if c == '⨿' {
        199
    } else {
        -1
    }
}

/// The fixed symbol alphabet, in assignment order.
pub open spec fn symbols_spec() -> Seq<char> {
    Seq::new(200, |i: int| symbol_at(i))
}

/// `symbol_index` inverts `symbol_at` on the alphabet.
pub proof fn lemma_symbol_index_inverts(i: int)
    requires
        0 <= i < 200,
    ensures
        symbol_index(symbol_at(i)) == i,
{
}

/// Symbol assignment is a bijection between the used colors and the first
/// symbols of the alphabet: the color at legend position `i` receives the
/// `i`-th symbol, the first `n` symbols are pairwise distinct, and each of
/// them marks exactly one color.
pub proof fn lemma_symbol_assignment_bijective(n: int)
    requires
        0 <= n <= 200,
    ensures
        forall|i: int, j: int| 0 <= i < j < n ==> symbols_spec()[i] != symbols_spec()[j],
{
    assert forall|i: int, j: int| 0 <= i < j < n implies symbols_spec()[i] != symbols_spec()[j] by {
        lemma_symbol_index_inverts(i);
        lemma_symbol_index_inverts(j);
    }
}

/// The glyph at position `i` of the alphabet.
pub fn symbol_char(i: usize) -> (c: char)
    requires
        i < 200,
    ensures
        c == symbol_at(i as int),
{
    if i == 0 {
        'A'
    } else if i == 1 {
        'B'
    } else if i == 2 {
        'C'
    } else if i == 3 {
        'D'
    } else if i == 4 {
        'E'
    } else if i == 5 {
        'F'
    } else if i == 6 {
        'G'
    } else if i == 7 {
        'H'
    } else if i == 8 {
        'I'
    } else if i == 9 {
        'J'
    } else if i == 10 {
        'K'
    } else if i == 11 {
        'L'
    } else if i == 12 {
        'M'
    } else if i == 13 {
        'N'
    } else if i == 14 {
        'O'
    } else if i == 15 {
        'P'
    } else if i == 16 {
        'Q'
    } else if i == 17 {
        'R'
    } else if i == 18 {
        'S'
    } else if i == 19 {
        'T'
    } else if i == 20 {
        'U'
    } else if i == 21 {
        'V'
    } else if i == 22 {
        'W'
    } else if i == 23 {
        'X'
    } else if i == 24 {
        'Y'
    } else if i == 25 {
        'Z'
    } else if i == 26 {
        'a'
    } else if i == 27 {
        'b'
    } else if i == 28 {
        'd'
    } else if i == 29 {
        'e'
    } else if i == 30 {
        'f'
    } else if i == 31 {
        'g'
    } else if i == 32 {
        'h'
    } else if i == 33 {
        'i'
    } else if i == 34 {
        'j'
    } else if i == 35 {
        'k'
    } else if i == 36 {
        'm'
    } else if i == 37 {
        'n'
    } else if i == 38 {
        'o'
    } else if i == 39 {
        'p'
    } else if i == 40 {
        'q'
    } else if i == 41 {
        'r'
    } else if i == 42 {
        't'
    } else if i == 43 {
        'u'
    } else if i == 44 {
        'v'
    } else if i == 45 {
        'w'
    } else if i == 46 {
        'y'
    } else if i == 47 {
        '1'
    } else if i == 48 {
        '2'
    } else if i == 49 {
        '3'
    } else if i == 50 {
        '4'
    } else if i == 51 {
        '5'
    } else if i == 52 {
        '6'
    } else if i == 53 {
        '7'
    } else if i == 54 {
        '8'
    } else if i == 55 {
        '9'
    } else if i == 56 {
        '0'
    } else if i == 57 {
        '❶'
    } else if i == 58 {
        '❷'
    } else if i == 59 {
        '❸'
    } else if i == 60 {
        '❹'
    } else if i == 61 {
        '❺'
    } else if i == 62 {
        '❻'
    } else if i == 63 {
        '❼'
    } else if i == 64 {
        '❽'
    } else if i == 65 {
        '❾'
    } else if i == 66 {
        '❿'
    } else if i == 67 {
        '➀'
    } else if i == 68 {
        '➁'
    } else if i == 69 {
        '➂'
    } else if i == 70 {
        '➃'
    } else if i == 71 {
        '➄'
    } else if i == 72 {
        '➅'
    } else if i == 73 {
        '➆'
    } else if i == 74 {
        '➇'
    } else if i == 75 {
        '➈'
    } else if i == 76 {
        '➉'
    } else if i == 77 {
        '~'
    } else if i == 78 {
        '!'
    } else if i == 79 {
        '@'
    } else if i == 80 {
        '#'
    } else if i == 81 {
        '$'
    } else if i == 82 {
        '%'
    } else if i == 83 {
        '&'
    } else if i == 84 {
        '*'
    } else if i == 85 {
        '+'
    } else if i == 86 {
        '='
    } else if i == 87 {
        '✇'
    } else if i == 88 {
        '✈'
    } else if i == 89 {
        '✉'
    } else if i == 90 {
        '✎'
    } else if i == 91 {
        '✒'
    } else if i == 92 {
        '✓'
    } else if i == 93 {
        '✖'
    } else if i == 94 {
        '✜'
    } else if i == 95 {
        '✢'
    } else if i == 96 {
        '✥'
    } else if i == 97 {
        '✦'
    } else if i == 98 {
        '✩'
    } else if i == 99 {
        '✲'
    } else if i == 100 {
        '✵'
    } else if i == 101 {
        '✹'
    } else if i == 102 {
        '✺'
    } else if i == 103 {
        '✼'
    } else if i == 104 {
        '✾'
    } else if i == 105 {
        '✿'
    } else if i == 106 {
        '❀'
    } else if i == 107 {
        '❁'
    } else if i == 108 {
        '❄'
    } else if i == 109 {
        '❈'
    } else if i == 110 {
        '❍'
    } else if i == 111 {
        '❑'
    } else if i == 112 {
        '❖'
    } else if i == 113 {
        '❢'
    } else if i == 114 {
        '❤'
    } else if i == 115 {
        '❦'
    } else if i == 116 {
        '➔'
    } else if i == 117 {
        '➘'
    } else if i == 118 {
        '➢'
    } else if i == 119 {
        '➥'
    } else if i == 120 {
        '➲'
    } else if i == 121 {
        '➳'
    } else if i == 122 {
        '➺'
    } else if i == 123 {
        '➾'
    } else if i == 124 {
        '◒'
    } else if i == 125 {
        '◐'
    } else if i == 126 {
        '◍'
    } else if i == 127 {
        '◌'
    } else if i == 128 {
        '◉'
    } else if i == 129 {
        '◈'
    } else if i == 130 {
        '▤'
    } else if i == 131 {
        '▧'
    } else if i == 132 {
        '◆'
    } else if i == 133 {
        '◇'
    } else if i == 134 {
        '◔'
    } else if i == 135 {
        '◗'
    } else if i == 136 {
        '◘'
    } else if i == 137 {
        '⌘'
    } else if i == 138 {
        '⍾'
    } else if i == 139 {
        '⏏'
    } else if i == 140 {
        '␥'
    } else if i == 141 {
        '◩'
    } else if i == 142 {
        '☂'
    } else if i == 143 {
        '☘'
    } else if i == 144 {
        '⟰'
    } else if i == 145 {
        '⟲'
    } else if i == 146 {
        '⟴'
    } else if i == 147 {
        '⤀'
    } else if i == 148 {
        '⤄'
    } else if i == 149 {
        '⤒'
    } else if i == 150 {
        '⤙'
    } else if i == 151 {
        '⤝'
    } else if i == 152 {
        '⤡'
    } else if i == 153 {
        '⤧'
    } else if i == 154 {
        '⤴'
    } else if i == 155 {
        '⤹'
    } else if i == 156 {
        '⥋'
    } else if i == 157 {
        '⥐'
    } else if i == 158 {
        '⥽'
    } else if i == 159 {
        '⦁'
    } else if i == 160 {
        '⦂'
    } else if i == 161 {
        '⦊'
    } else if i == 162 {
        '⦔'
    } else if i == 163 {
        '⦛'
    } else if i == 164 {
        '⦵'
    } else if i == 165 {
        '⦶'
    } else if i == 166 {
        '⩁'
    } else if i == 167 {
        '⦸'
    } else if i == 168 {
        '⦹'
    } else if i == 169 {
        '⩐'
    } else if i == 170 {
        '⦻'
    } else if i == 171 {
        '⦼'
    } else if i == 172 {
        '⦾'
    } else if i == 173 {
        '⧀'
    } else if i == 174 {
        '⧄'
    } else if i == 175 {
        '⧆'
    } else if i == 176 {
        '⩆'
    } else if i == 177 {
        '⩌'
    } else if i == 178 {
        '⩎'
    } else if i == 179 {
        '⧍'
    } else if i == 180 {
        '⧑'
    } else if i == 181 {
        '⧖'
    } else if i == 182 {
        '⧜'
    } else if i == 183 {
        '⧝'
    } else if i == 184 {
        '⧞'
    } else if i == 185 {
        '⧢'
    } else if i == 186 {
        '⧥'
    } else if i == 187 {
        '⧨'
    } else if i == 188 {
        '⧫'
    } else if i == 189 {
        '⧬'
    } else if i == 190 {
        '⧮'
    } else if i == 191 {
        '⧲'
    } else if i == 192 {
        '⨀'
    } else if i == 193 {
        '⨁'
    } else if i == 194 {
        '⨇'
    } else if i == 195 {
        '⨊'
    } else if i == 196 {
        '⨎'
    } else if i == 197 {
        '⨳'
    } else if i == 198 {
        '⨷'
    } else if i == 199 {
        '⨿'
    } else {
        ' '
    }
}

/// The symbol alphabet as a value, in assignment order: the color at legend
/// position `i` is marked with entry `i`.
pub fn symbols() -> (r: Vec<char>)
    ensures
        r@ == symbols_spec(),
        r@.len() == 200,
{
    let mut v: Vec<char> = Vec::new();
    let mut i: usize = 0;
    while i < 200
        invariant
            i <= 200,
            v@.len() == i,
            forall|k: int| 0 <= k < i ==> #[trigger] v@[k] == symbol_at(k),
        decreases 200 - i,
    {
        let c = symbol_char(i);
        v.push(c);
        i = i + 1;
    }
    proof {
        assert(v@ =~= symbols_spec());
    }
    v
}

} // verus!
