//! The numbered genres of ID3v1, which MP4 files refer to by index.

use vstd::prelude::*;

verus! {

/// How many genres have a number.
pub const GENRE_COUNT: usize = 192;

/// The names of the genres 0 to 15.
pub open spec fn genre_text_0(index: int) -> Seq<char> {
    if index == 0 {
        "Blues"@
    }     else if index == 1 {
        "Classic Rock"@
    }     else if index == 2 {
        "Country"@
    }     else if index == 3 {
        "Dance"@
    }     else if index == 4 {
        "Disco"@
    }     else if index == 5 {
        "Funk"@
    }     else if index == 6 {
        "Grunge"@
    }     else if index == 7 {
        "Hip-Hop"@
    }     else if index == 8 {
        "Jazz"@
    }     else if index == 9 {
        "Metal"@
    }     else if index == 10 {
        "New Age"@
    }     else if index == 11 {
        "Oldies"@
    }     else if index == 12 {
        "Other"@
    }     else if index == 13 {
        "Pop"@
    }     else if index == 14 {
        "R&B"@
    } else {
        "Rap"@
    }
}

/// The name of one of the genres 0 to 15.
fn genre_name_0(index: usize) -> (result: &'static str)
    requires
        0 <= index < 16,
    ensures
        result@ == genre_text_0(index as int),
{
    if index == 0 {
        "Blues"
    }     else if index == 1 {
        "Classic Rock"
    }     else if index == 2 {
        "Country"
    }     else if index == 3 {
        "Dance"
    }     else if index == 4 {
        "Disco"
    }     else if index == 5 {
        "Funk"
    }     else if index == 6 {
        "Grunge"
    }     else if index == 7 {
        "Hip-Hop"
    }     else if index == 8 {
        "Jazz"
    }     else if index == 9 {
        "Metal"
    }     else if index == 10 {
        "New Age"
    }     else if index == 11 {
        "Oldies"
    }     else if index == 12 {
        "Other"
    }     else if index == 13 {
        "Pop"
    }     else if index == 14 {
        "R&B"
    } else {
        "Rap"
    }
}

/// The names of the genres 16 to 31.
pub open spec fn genre_text_1(index: int) -> Seq<char> {
    if index == 16 {
        "Reggae"@
    }     else if index == 17 {
        "Rock"@
    }     else if index == 18 {
        "Techno"@
    }     else if index == 19 {
        "Industrial"@
    }     else if index == 20 {
        "Alternative"@
    }     else if index == 21 {
        "Ska"@
    }     else if index == 22 {
        "Death Metal"@
    }     else if index == 23 {
        "Pranks"@
    }     else if index == 24 {
        "Soundtrack"@
    }     else if index == 25 {
        "Euro-Techno"@
    }     else if index == 26 {
        "Ambient"@
    }     else if index == 27 {
        "Trip-Hop"@
    }     else if index == 28 {
        "Vocal"@
    }     else if index == 29 {
        "Jazz+Funk"@
    }     else if index == 30 {
        "Fusion"@
    } else {
        "Trance"@
    }
}

/// The name of one of the genres 16 to 31.
fn genre_name_1(index: usize) -> (result: &'static str)
    requires
        16 <= index < 32,
    ensures
        result@ == genre_text_1(index as int),
{
    if index == 16 {
        "Reggae"
    }     else if index == 17 {
        "Rock"
    }     else if index == 18 {
        "Techno"
    }     else if index == 19 {
        "Industrial"
    }     else if index == 20 {
        "Alternative"
    }     else if index == 21 {
        "Ska"
    }     else if index == 22 {
        "Death Metal"
    }     else if index == 23 {
        "Pranks"
    }     else if index == 24 {
        "Soundtrack"
    }     else if index == 25 {
        "Euro-Techno"
    }     else if index == 26 {
        "Ambient"
    }     else if index == 27 {
        "Trip-Hop"
    }     else if index == 28 {
        "Vocal"
    }     else if index == 29 {
        "Jazz+Funk"
    }     else if index == 30 {
        "Fusion"
    } else {
        "Trance"
    }
}

/// The names of the genres 32 to 47.
pub open spec fn genre_text_2(index: int) -> Seq<char> {
    if index == 32 {
        "Classical"@
    }     else if index == 33 {
        "Instrumental"@
    }     else if index == 34 {
        "Acid"@
    }     else if index == 35 {
        "House"@
    }     else if index == 36 {
        "Game"@
    }     else if index == 37 {
        "Sound Clip"@
    }     else if index == 38 {
        "Gospel"@
    }     else if index == 39 {
        "Noise"@
    }     else if index == 40 {
        "Alt. Rock"@
    }     else if index == 41 {
        "Bass"@
    }     else if index == 42 {
        "Soul"@
    }     else if index == 43 {
        "Punk"@
    }     else if index == 44 {
        "Space"@
    }     else if index == 45 {
        "Meditative"@
    }     else if index == 46 {
        "Instrumental Pop"@
    } else {
        "Instrumental Rock"@
    }
}

/// The name of one of the genres 32 to 47.
fn genre_name_2(index: usize) -> (result: &'static str)
    requires
        32 <= index < 48,
    ensures
        result@ == genre_text_2(index as int),
{
    if index == 32 {
        "Classical"
    }     else if index == 33 {
        "Instrumental"
    }     else if index == 34 {
        "Acid"
    }     else if index == 35 {
        "House"
    }     else if index == 36 {
        "Game"
    }     else if index == 37 {
        "Sound Clip"
    }     else if index == 38 {
        "Gospel"
    }     else if index == 39 {
        "Noise"
    }     else if index == 40 {
        "Alt. Rock"
    }     else if index == 41 {
        "Bass"
    }     else if index == 42 {
        "Soul"
    }     else if index == 43 {
        "Punk"
    }     else if index == 44 {
        "Space"
    }     else if index == 45 {
        "Meditative"
    }     else if index == 46 {
        "Instrumental Pop"
    } else {
        "Instrumental Rock"
    }
}

/// The names of the genres 48 to 63.
pub open spec fn genre_text_3(index: int) -> Seq<char> {
    if index == 48 {
        "Ethnic"@
    }     else if index == 49 {
        "Gothic"@
    }     else if index == 50 {
        "Darkwave"@
    }     else if index == 51 {
        "Techno-Industrial"@
    }     else if index == 52 {
        "Electronic"@
    }     else if index == 53 {
        "Pop-Folk"@
    }     else if index == 54 {
        "Eurodance"@
    }     else if index == 55 {
        "Dream"@
    }     else if index == 56 {
        "Southern Rock"@
    }     else if index == 57 {
        "Comedy"@
    }     else if index == 58 {
        "Cult"@
    }     else if index == 59 {
        "Gangsta Rap"@
    }     else if index == 60 {
        "Top 40"@
    }     else if index == 61 {
        "Christian Rap"@
    }     else if index == 62 {
        "Pop/Funk"@
    } else {
        "Jungle"@
    }
}

/// The name of one of the genres 48 to 63.
fn genre_name_3(index: usize) -> (result: &'static str)
    requires
        48 <= index < 64,
    ensures
        result@ == genre_text_3(index as int),
{
    if index == 48 {
        "Ethnic"
    }     else if index == 49 {
        "Gothic"
    }     else if index == 50 {
        "Darkwave"
    }     else if index == 51 {
        "Techno-Industrial"
    }     else if index == 52 {
        "Electronic"
    }     else if index == 53 {
        "Pop-Folk"
    }     else if index == 54 {
        "Eurodance"
    }     else if index == 55 {
        "Dream"
    }     else if index == 56 {
        "Southern Rock"
    }     else if index == 57 {
        "Comedy"
    }     else if index == 58 {
        "Cult"
    }     else if index == 59 {
        "Gangsta Rap"
    }     else if index == 60 {
        "Top 40"
    }     else if index == 61 {
        "Christian Rap"
    }     else if index == 62 {
        "Pop/Funk"
    } else {
        "Jungle"
    }
}

/// The names of the genres 64 to 79.
pub open spec fn genre_text_4(index: int) -> Seq<char> {
    if index == 64 {
        "Native American"@
    }     else if index == 65 {
        "Cabaret"@
    }     else if index == 66 {
        "New Wave"@
    }     else if index == 67 {
        "Psychedelic"@
    }     else if index == 68 {
        "Rave"@
    }     else if index == 69 {
        "Showtunes"@
    }     else if index == 70 {
        "Trailer"@
    }     else if index == 71 {
        "Lo-Fi"@
    }     else if index == 72 {
        "Tribal"@
    }     else if index == 73 {
        "Acid Punk"@
    }     else if index == 74 {
        "Acid Jazz"@
    }     else if index == 75 {
        "Polka"@
    }     else if index == 76 {
        "Retro"@
    }     else if index == 77 {
        "Musical"@
    }     else if index == 78 {
        "Rock & Roll"@
    } else {
        "Hard Rock"@
    }
}

/// The name of one of the genres 64 to 79.
fn genre_name_4(index: usize) -> (result: &'static str)
    requires
        64 <= index < 80,
    ensures
        result@ == genre_text_4(index as int),
{
    if index == 64 {
        "Native American"
    }     else if index == 65 {
        "Cabaret"
    }     else if index == 66 {
        "New Wave"
    }     else if index == 67 {
        "Psychedelic"
    }     else if index == 68 {
        "Rave"
    }     else if index == 69 {
        "Showtunes"
    }     else if index == 70 {
        "Trailer"
    }     else if index == 71 {
        "Lo-Fi"
    }     else if index == 72 {
        "Tribal"
    }     else if index == 73 {
        "Acid Punk"
    }     else if index == 74 {
        "Acid Jazz"
    }     else if index == 75 {
        "Polka"
    }     else if index == 76 {
        "Retro"
    }     else if index == 77 {
        "Musical"
    }     else if index == 78 {
        "Rock & Roll"
    } else {
        "Hard Rock"
    }
}

/// The names of the genres 80 to 95.
pub open spec fn genre_text_5(index: int) -> Seq<char> {
    if index == 80 {
        "Folk"@
    }     else if index == 81 {
        "Folk-Rock"@
    }     else if index == 82 {
        "National Folk"@
    }     else if index == 83 {
        "Swing"@
    }     else if index == 84 {
        "Fast-Fusion"@
    }     else if index == 85 {
        "Bebop"@
    }     else if index == 86 {
        "Latin"@
    }     else if index == 87 {
        "Revival"@
    }     else if index == 88 {
        "Celtic"@
    }     else if index == 89 {
        "Bluegrass"@
    }     else if index == 90 {
        "Avantgarde"@
    }     else if index == 91 {
        "Gothic Rock"@
    }     else if index == 92 {
        "Progressive Rock"@
    }     else if index == 93 {
        "Psychedelic Rock"@
    }     else if index == 94 {
        "Symphonic Rock"@
    } else {
        "Slow Rock"@
    }
}

/// The name of one of the genres 80 to 95.
fn genre_name_5(index: usize) -> (result: &'static str)
    requires
        80 <= index < 96,
    ensures
        result@ == genre_text_5(index as int),
{
    if index == 80 {
        "Folk"
    }     else if index == 81 {
        "Folk-Rock"
    }     else if index == 82 {
        "National Folk"
    }     else if index == 83 {
        "Swing"
    }     else if index == 84 {
        "Fast-Fusion"
    }     else if index == 85 {
        "Bebop"
    }     else if index == 86 {
        "Latin"
    }     else if index == 87 {
        "Revival"
    }     else if index == 88 {
        "Celtic"
    }     else if index == 89 {
        "Bluegrass"
    }     else if index == 90 {
        "Avantgarde"
    }     else if index == 91 {
        "Gothic Rock"
    }     else if index == 92 {
        "Progressive Rock"
    }     else if index == 93 {
        "Psychedelic Rock"
    }     else if index == 94 {
        "Symphonic Rock"
    } else {
        "Slow Rock"
    }
}

/// The names of the genres 96 to 111.
pub open spec fn genre_text_6(index: int) -> Seq<char> {
    if index == 96 {
        "Big Band"@
    }     else if index == 97 {
        "Chorus"@
    }     else if index == 98 {
        "Easy Listening"@
    }     else if index == 99 {
        "Acoustic"@
    }     else if index == 100 {
        "Humour"@
    }     else if index == 101 {
        "Speech"@
    }     else if index == 102 {
        "Chanson"@
    }     else if index == 103 {
        "Opera"@
    }     else if index == 104 {
        "Chamber Music"@
    }     else if index == 105 {
        "Sonata"@
    }     else if index == 106 {
        "Symphony"@
    }     else if index == 107 {
        "Booty Bass"@
    }     else if index == 108 {
        "Primus"@
    }     else if index == 109 {
        "Porn Groove"@
    }     else if index == 110 {
        "Satire"@
    } else {
        "Slow Jam"@
    }
}

/// The name of one of the genres 96 to 111.
fn genre_name_6(index: usize) -> (result: &'static str)
    requires
        96 <= index < 112,
    ensures
        result@ == genre_text_6(index as int),
{
    if index == 96 {
        "Big Band"
    }     else if index == 97 {
        "Chorus"
    }     else if index == 98 {
        "Easy Listening"
    }     else if index == 99 {
        "Acoustic"
    }     else if index == 100 {
        "Humour"
    }     else if index == 101 {
        "Speech"
    }     else if index == 102 {
        "Chanson"
    }     else if index == 103 {
        "Opera"
    }     else if index == 104 {
        "Chamber Music"
    }     else if index == 105 {
        "Sonata"
    }     else if index == 106 {
        "Symphony"
    }     else if index == 107 {
        "Booty Bass"
    }     else if index == 108 {
        "Primus"
    }     else if index == 109 {
        "Porn Groove"
    }     else if index == 110 {
        "Satire"
    } else {
        "Slow Jam"
    }
}

/// The names of the genres 112 to 127.
pub open spec fn genre_text_7(index: int) -> Seq<char> {
    if index == 112 {
        "Club"@
    }     else if index == 113 {
        "Tango"@
    }     else if index == 114 {
        "Samba"@
    }     else if index == 115 {
        "Folklore"@
    }     else if index == 116 {
        "Ballad"@
    }     else if index == 117 {
        "Power Ballad"@
    }     else if index == 118 {
        "Rhythmic Soul"@
    }     else if index == 119 {
        "Freestyle"@
    }     else if index == 120 {
        "Duet"@
    }     else if index == 121 {
        "Punk Rock"@
    }     else if index == 122 {
        "Drum Solo"@
    }     else if index == 123 {
        "A Cappella"@
    }     else if index == 124 {
        "Euro-House"@
    }     else if index == 125 {
        "Dance Hall"@
    }     else if index == 126 {
        "Goa"@
    } else {
        "Drum & Bass"@
    }
}

/// The name of one of the genres 112 to 127.
fn genre_name_7(index: usize) -> (result: &'static str)
    requires
        112 <= index < 128,
    ensures
        result@ == genre_text_7(index as int),
{
    if index == 112 {
        "Club"
    }     else if index == 113 {
        "Tango"
    }     else if index == 114 {
        "Samba"
    }     else if index == 115 {
        "Folklore"
    }     else if index == 116 {
        "Ballad"
    }     else if index == 117 {
        "Power Ballad"
    }     else if index == 118 {
        "Rhythmic Soul"
    }     else if index == 119 {
        "Freestyle"
    }     else if index == 120 {
        "Duet"
    }     else if index == 121 {
        "Punk Rock"
    }     else if index == 122 {
        "Drum Solo"
    }     else if index == 123 {
        "A Cappella"
    }     else if index == 124 {
        "Euro-House"
    }     else if index == 125 {
        "Dance Hall"
    }     else if index == 126 {
        "Goa"
    } else {
        "Drum & Bass"
    }
}

/// The names of the genres 128 to 143.
pub open spec fn genre_text_8(index: int) -> Seq<char> {
    if index == 128 {
        "Club-House"@
    }     else if index == 129 {
        "Hardcore"@
    }     else if index == 130 {
        "Terror"@
    }     else if index == 131 {
        "Indie"@
    }     else if index == 132 {
        "BritPop"@
    }     else if index == 133 {
        "Afro-Punk"@
    }     else if index == 134 {
        "Polsk Punk"@
    }     else if index == 135 {
        "Beat"@
    }     else if index == 136 {
        "Christian Gangsta Rap"@
    }     else if index == 137 {
        "Heavy Metal"@
    }     else if index == 138 {
        "Black Metal"@
    }     else if index == 139 {
        "Crossover"@
    }     else if index == 140 {
        "Contemporary Christian"@
    }     else if index == 141 {
        "Christian Rock"@
    }     else if index == 142 {
        "Merengue"@
    } else {
        "Salsa"@
    }
}

/// The name of one of the genres 128 to 143.
fn genre_name_8(index: usize) -> (result: &'static str)
    requires
        128 <= index < 144,
    ensures
        result@ == genre_text_8(index as int),
{
    if index == 128 {
        "Club-House"
    }     else if index == 129 {
        "Hardcore"
    }     else if index == 130 {
        "Terror"
    }     else if index == 131 {
        "Indie"
    }     else if index == 132 {
        "BritPop"
    }     else if index == 133 {
        "Afro-Punk"
    }     else if index == 134 {
        "Polsk Punk"
    }     else if index == 135 {
        "Beat"
    }     else if index == 136 {
        "Christian Gangsta Rap"
    }     else if index == 137 {
        "Heavy Metal"
    }     else if index == 138 {
        "Black Metal"
    }     else if index == 139 {
        "Crossover"
    }     else if index == 140 {
        "Contemporary Christian"
    }     else if index == 141 {
        "Christian Rock"
    }     else if index == 142 {
        "Merengue"
    } else {
        "Salsa"
    }
}

/// The names of the genres 144 to 159.
pub open spec fn genre_text_9(index: int) -> Seq<char> {
    if index == 144 {
        "Thrash Metal"@
    }     else if index == 145 {
        "Anime"@
    }     else if index == 146 {
        "JPop"@
    }     else if index == 147 {
        "Synthpop"@
    }     else if index == 148 {
        "Abstract"@
    }     else if index == 149 {
        "Art Rock"@
    }     else if index == 150 {
        "Baroque"@
    }     else if index == 151 {
        "Bhangra"@
    }     else if index == 152 {
        "Big Beat"@
    }     else if index == 153 {
        "Breakbeat"@
    }     else if index == 154 {
        "Chillout"@
    }     else if index == 155 {
        "Downtempo"@
    }     else if index == 156 {
        "Dub"@
    }     else if index == 157 {
        "EBM"@
    }     else if index == 158 {
        "Eclectic"@
    } else {
        "Electro"@
    }
}

/// The name of one of the genres 144 to 159.
fn genre_name_9(index: usize) -> (result: &'static str)
    requires
        144 <= index < 160,
    ensures
        result@ == genre_text_9(index as int),
{
    if index == 144 {
        "Thrash Metal"
    }     else if index == 145 {
        "Anime"
    }     else if index == 146 {
        "JPop"
    }     else if index == 147 {
        "Synthpop"
    }     else if index == 148 {
        "Abstract"
    }     else if index == 149 {
        "Art Rock"
    }     else if index == 150 {
        "Baroque"
    }     else if index == 151 {
        "Bhangra"
    }     else if index == 152 {
        "Big Beat"
    }     else if index == 153 {
        "Breakbeat"
    }     else if index == 154 {
        "Chillout"
    }     else if index == 155 {
        "Downtempo"
    }     else if index == 156 {
        "Dub"
    }     else if index == 157 {
        "EBM"
    }     else if index == 158 {
        "Eclectic"
    } else {
        "Electro"
    }
}

/// The names of the genres 160 to 175.
pub open spec fn genre_text_10(index: int) -> Seq<char> {
    if index == 160 {
        "Electroclash"@
    }     else if index == 161 {
        "Emo"@
    }     else if index == 162 {
        "Experimental"@
    }     else if index == 163 {
        "Garage"@
    }     else if index == 164 {
        "Global"@
    }     else if index == 165 {
        "IDM"@
    }     else if index == 166 {
        "Illbient"@
    }     else if index == 167 {
        "Industro-Goth"@
    }     else if index == 168 {
        "Jam Band"@
    }     else if index == 169 {
        "Krautrock"@
    }     else if index == 170 {
        "Leftfield"@
    }     else if index == 171 {
        "Lounge"@
    }     else if index == 172 {
        "Math Rock"@
    }     else if index == 173 {
        "New Romantic"@
    }     else if index == 174 {
        "Nu-Breakz"@
    } else {
        "Post-Punk"@
    }
}

/// The name of one of the genres 160 to 175.
fn genre_name_10(index: usize) -> (result: &'static str)
    requires
        160 <= index < 176,
    ensures
        result@ == genre_text_10(index as int),
{
    if index == 160 {
        "Electroclash"
    }     else if index == 161 {
        "Emo"
    }     else if index == 162 {
        "Experimental"
    }     else if index == 163 {
        "Garage"
    }     else if index == 164 {
        "Global"
    }     else if index == 165 {
        "IDM"
    }     else if index == 166 {
        "Illbient"
    }     else if index == 167 {
        "Industro-Goth"
    }     else if index == 168 {
        "Jam Band"
    }     else if index == 169 {
        "Krautrock"
    }     else if index == 170 {
        "Leftfield"
    }     else if index == 171 {
        "Lounge"
    }     else if index == 172 {
        "Math Rock"
    }     else if index == 173 {
        "New Romantic"
    }     else if index == 174 {
        "Nu-Breakz"
    } else {
        "Post-Punk"
    }
}

/// The names of the genres 176 to 191.
pub open spec fn genre_text_11(index: int) -> Seq<char> {
    if index == 176 {
        "Post-Rock"@
    }     else if index == 177 {
        "Psytrance"@
    }     else if index == 178 {
        "Shoegaze"@
    }     else if index == 179 {
        "Space Rock"@
    }     else if index == 180 {
        "Trop Rock"@
    }     else if index == 181 {
        "World Music"@
    }     else if index == 182 {
        "Neoclassical"@
    }     else if index == 183 {
        "Audiobook"@
    }     else if index == 184 {
        "Audio Theatre"@
    }     else if index == 185 {
        "Neue Deutsche Welle"@
    }     else if index == 186 {
        "Podcast"@
    }     else if index == 187 {
        "Indie Rock"@
    }     else if index == 188 {
        "G-Funk"@
    }     else if index == 189 {
        "Dubstep"@
    }     else if index == 190 {
        "Garage Rock"@
    } else {
        "Psybient"@
    }
}

/// The name of one of the genres 176 to 191.
fn genre_name_11(index: usize) -> (result: &'static str)
    requires
        176 <= index < 192,
    ensures
        result@ == genre_text_11(index as int),
{
    if index == 176 {
        "Post-Rock"
    }     else if index == 177 {
        "Psytrance"
    }     else if index == 178 {
        "Shoegaze"
    }     else if index == 179 {
        "Space Rock"
    }     else if index == 180 {
        "Trop Rock"
    }     else if index == 181 {
        "World Music"
    }     else if index == 182 {
        "Neoclassical"
    }     else if index == 183 {
        "Audiobook"
    }     else if index == 184 {
        "Audio Theatre"
    }     else if index == 185 {
        "Neue Deutsche Welle"
    }     else if index == 186 {
        "Podcast"
    }     else if index == 187 {
        "Indie Rock"
    }     else if index == 188 {
        "G-Funk"
    }     else if index == 189 {
        "Dubstep"
    }     else if index == 190 {
        "Garage Rock"
    } else {
        "Psybient"
    }
}

/// The name of the genre with the given index, counted from zero.
pub open spec fn genre_text(index: int) -> Seq<char> {
    if index < 16 {
        genre_text_0(index)
    }     else if index < 32 {
        genre_text_1(index)
    }     else if index < 48 {
        genre_text_2(index)
    }     else if index < 64 {
        genre_text_3(index)
    }     else if index < 80 {
        genre_text_4(index)
    }     else if index < 96 {
        genre_text_5(index)
    }     else if index < 112 {
        genre_text_6(index)
    }     else if index < 128 {
        genre_text_7(index)
    }     else if index < 144 {
        genre_text_8(index)
    }     else if index < 160 {
        genre_text_9(index)
    }     else if index < 176 {
        genre_text_10(index)
    } else {
        genre_text_11(index)
    }
}

/// The name of the genre with the given index, counted from zero; nothing
/// for an index without a genre.
pub fn genre_name(index: usize) -> (result: Option<&'static str>)
    ensures
        result is Some <==> index < GENRE_COUNT,
        result matches Some(name) ==> name@ == genre_text(index as int),
{
    if index >= GENRE_COUNT {
        None
    } else if index < 16 {
        Some(genre_name_0(index))
    } else if index < 32 {
        Some(genre_name_1(index))
    } else if index < 48 {
        Some(genre_name_2(index))
    } else if index < 64 {
        Some(genre_name_3(index))
    } else if index < 80 {
        Some(genre_name_4(index))
    } else if index < 96 {
        Some(genre_name_5(index))
    } else if index < 112 {
        Some(genre_name_6(index))
    } else if index < 128 {
        Some(genre_name_7(index))
    } else if index < 144 {
        Some(genre_name_8(index))
    } else if index < 160 {
        Some(genre_name_9(index))
    } else if index < 176 {
        Some(genre_name_10(index))
    } else {
        Some(genre_name_11(index))
    }
}

} // verus!
