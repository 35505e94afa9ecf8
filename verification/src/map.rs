use vstd::prelude::*;
use crate::common::Color;

verus! {

/// Number of cities on the map.
pub const CITY_COUNT: usize = 48;

/// The names of the cities, by the city's position.
pub const CITY_NAMES: [&'static str; 48] = [
    "Algiers",
    "Atlanta",
    "Baghdad",
    "Bangkok",
    "Beijing",
    "Bogotá",
    "Buenos Aires",
    "Cairo",
    "Chennai",
    "Chicago",
    "Delhi",
    "Essen",
    "Ho Chi Minh City",
    "Hong Kong",
    "Istanbul",
    "Jakarta",
    "Johannesburg",
    "Karachi",
    "Khartoum",
    "Kinshasa",
    "Kolkata",
    "Lagos",
    "Lima",
    "London",
    "Los Angeles",
    "Madrid",
    "Manila",
    "Mexico City",
    "Miami",
    "Milan",
    "Montréal",
    "Moscow",
    "Mumbai",
    "New York",
    "Osaka",
    "Paris",
    "Riyadh",
    "Saint Petersburg",
    "San Francisco",
    "Santiago",
    "São Paulo",
    "Seoul",
    "Shanghai",
    "Sydney",
    "Taipei",
    "Tehran",
    "Tokyo",
    "Washington",
];

/// The cities of the world map, in alphabetical order.
#[derive(Clone, Copy, Debug, PartialEq, Eq, Structural, Hash, PartialOrd, Ord)]
pub enum Cities {
    Algiers,
    Atlanta,
    Baghdad,
    Bangkok,
    Beijing,
    Bogota,
    BuenosAires,
    Cairo,
    Chennai,
    Chicago,
    Delhi,
    Essen,
    HoChiMinhCity,
    HongKong,
    Istanbul,
    Jakarta,
    Johannesburg,
    Karachi,
    Khartoum,
    Kinshasa,
    Kolkata,
    Lagos,
    Lima,
    London,
    LosAngeles,
    Madrid,
    Manila,
    MexicoCity,
    Miami,
    Milan,
    Montreal,
    Moscow,
    Mumbai,
    NewYork,
    Osaka,
    Paris,
    Riyadh,
    SaintPetersburg,
    SanFrancisco,
    Santiago,
    SaoPaulo,
    Seoul,
    Shanghai,
    Sydney,
    Taipei,
    Tehran,
    Tokyo,
    Washington,
}

impl Cities {
    /// Position of the city in the declaration order, from 0 to 47.
    pub open spec fn slot(self) -> int {
        match self {
            Cities::Algiers => 0,
            Cities::Atlanta => 1,
            Cities::Baghdad => 2,
            Cities::Bangkok => 3,
            Cities::Beijing => 4,
            Cities::Bogota => 5,
            Cities::BuenosAires => 6,
            Cities::Cairo => 7,
            Cities::Chennai => 8,
            Cities::Chicago => 9,
            Cities::Delhi => 10,
            Cities::Essen => 11,
            Cities::HoChiMinhCity => 12,
            Cities::HongKong => 13,
            Cities::Istanbul => 14,
            Cities::Jakarta => 15,
            Cities::Johannesburg => 16,
            Cities::Karachi => 17,
            Cities::Khartoum => 18,
            Cities::Kinshasa => 19,
            Cities::Kolkata => 20,
            Cities::Lagos => 21,
            Cities::Lima => 22,
            Cities::London => 23,
            Cities::LosAngeles => 24,
            Cities::Madrid => 25,
            Cities::Manila => 26,
            Cities::MexicoCity => 27,
            Cities::Miami => 28,
            Cities::Milan => 29,
            Cities::Montreal => 30,
            Cities::Moscow => 31,
            Cities::Mumbai => 32,
            Cities::NewYork => 33,
            Cities::Osaka => 34,
            Cities::Paris => 35,
            Cities::Riyadh => 36,
            Cities::SaintPetersburg => 37,
            Cities::SanFrancisco => 38,
            Cities::Santiago => 39,
            Cities::SaoPaulo => 40,
            Cities::Seoul => 41,
            Cities::Shanghai => 42,
            Cities::Sydney => 43,
            Cities::Taipei => 44,
            Cities::Tehran => 45,
            Cities::Tokyo => 46,
            Cities::Washington => 47,
        }
    }

    /// The city that stands at position `i` of the declaration order.
    pub open spec fn at(i: int) -> Cities {
        if i == 0 {
            Cities::Algiers
        } else if i == 1 {
            Cities::Atlanta
        } else if i == 2 {
            Cities::Baghdad
        } else if i == 3 {
            Cities::Bangkok
        } else if i == 4 {
            Cities::Beijing
        } else if i == 5 {
            Cities::Bogota
        } else if i == 6 {
            Cities::BuenosAires
        } else if i == 7 {
            Cities::Cairo
        } else if i == 8 {
            Cities::Chennai
        } else if i == 9 {
            Cities::Chicago
        } else if i == 10 {
            Cities::Delhi
        } else if i == 11 {
            Cities::Essen
        } else if i == 12 {
            Cities::HoChiMinhCity
        } else if i == 13 {
            Cities::HongKong
        } else if i == 14 {
            Cities::Istanbul
        } else if i == 15 {
            Cities::Jakarta
        } else if i == 16 {
            Cities::Johannesburg
        } else if i == 17 {
            Cities::Karachi
        } else if i == 18 {
            Cities::Khartoum
        } else if i == 19 {
            Cities::Kinshasa
        } else if i == 20 {
            Cities::Kolkata
        } else if i == 21 {
            Cities::Lagos
        } else if i == 22 {
            Cities::Lima
        } else if i == 23 {
            Cities::London
        } else if i == 24 {
            Cities::LosAngeles
        } else if i == 25 {
            Cities::Madrid
        } else if i == 26 {
            Cities::Manila
        } else if i == 27 {
            Cities::MexicoCity
        } else if i == 28 {
            Cities::Miami
        } else if i == 29 {
            Cities::Milan
        } else if i == 30 {
            Cities::Montreal
        } else if i == 31 {
            Cities::Moscow
        } else if i == 32 {
            Cities::Mumbai
        } else if i == 33 {
            Cities::NewYork
        } else if i == 34 {
            Cities::Osaka
        } else if i == 35 {
            Cities::Paris
        } else if i == 36 {
            Cities::Riyadh
        } else if i == 37 {
            Cities::SaintPetersburg
        } else if i == 38 {
            Cities::SanFrancisco
        } else if i == 39 {
            Cities::Santiago
        } else if i == 40 {
            Cities::SaoPaulo
        } else if i == 41 {
            Cities::Seoul
        } else if i == 42 {
            Cities::Shanghai
        } else if i == 43 {
            Cities::Sydney
        } else if i == 44 {
            Cities::Taipei
        } else if i == 45 {
            Cities::Tehran
        } else if i == 46 {
            Cities::Tokyo
        } else {
            Cities::Washington
        }
    }

    /// The colour of the disease that is native to the city.
    pub open spec fn native_color(self) -> Color {
        match self {
            Cities::Algiers => Color::Black,
            Cities::Atlanta => Color::Blue,
            Cities::Baghdad => Color::Black,
            Cities::Bangkok => Color::Red,
            Cities::Beijing => Color::Red,
            Cities::Bogota => Color::Yellow,
            Cities::BuenosAires => Color::Yellow,
            Cities::Cairo => Color::Black,
            Cities::Chennai => Color::Black,
            Cities::Chicago => Color::Blue,
            Cities::Delhi => Color::Black,
            Cities::Essen => Color::Blue,
            Cities::HoChiMinhCity => Color::Red,
            Cities::HongKong => Color::Red,
            Cities::Istanbul => Color::Black,
            Cities::Jakarta => Color::Red,
            Cities::Johannesburg => Color::Yellow,
            Cities::Karachi => Color::Black,
            Cities::Khartoum => Color::Yellow,
            Cities::Kinshasa => Color::Yellow,
            Cities::Kolkata => Color::Black,
            Cities::Lagos => Color::Yellow,
            Cities::Lima => Color::Yellow,
            Cities::London => Color::Blue,
            Cities::LosAngeles => Color::Yellow,
            Cities::Madrid => Color::Blue,
            Cities::Manila => Color::Red,
            Cities::MexicoCity => Color::Yellow,
            Cities::Miami => Color::Yellow,
            Cities::Milan => Color::Blue,
            Cities::Montreal => Color::Blue,
            Cities::Moscow => Color::Black,
            Cities::Mumbai => Color::Black,
            Cities::NewYork => Color::Blue,
            Cities::Osaka => Color::Red,
            Cities::Paris => Color::Blue,
            Cities::Riyadh => Color::Black,
            Cities::SaintPetersburg => Color::Blue,
            Cities::SanFrancisco => Color::Blue,
            Cities::Santiago => Color::Yellow,
            Cities::SaoPaulo => Color::Yellow,
            Cities::Seoul => Color::Red,
            Cities::Shanghai => Color::Red,
            Cities::Sydney => Color::Red,
            Cities::Taipei => Color::Red,
            Cities::Tehran => Color::Black,
            Cities::Tokyo => Color::Red,
            Cities::Washington => Color::Blue,
        }
    }

    /// The characters of the city's name.
    pub open spec fn label(self) -> Seq<char> {
        CITY_NAMES[self.slot()]@
    }

    /// Position of the city in the declaration order.
    pub fn index(self) -> (i: usize)
        ensures
            i == self.slot(),
            i < CITY_COUNT,
    {
        match self {
            Cities::Algiers => 0,
            Cities::Atlanta => 1,
            Cities::Baghdad => 2,
            Cities::Bangkok => 3,
            Cities::Beijing => 4,
            Cities::Bogota => 5,
            Cities::BuenosAires => 6,
            Cities::Cairo => 7,
            Cities::Chennai => 8,
            Cities::Chicago => 9,
            Cities::Delhi => 10,
            Cities::Essen => 11,
            Cities::HoChiMinhCity => 12,
            Cities::HongKong => 13,
            Cities::Istanbul => 14,
            Cities::Jakarta => 15,
            Cities::Johannesburg => 16,
            Cities::Karachi => 17,
            Cities::Khartoum => 18,
            Cities::Kinshasa => 19,
            Cities::Kolkata => 20,
            Cities::Lagos => 21,
            Cities::Lima => 22,
            Cities::London => 23,
            Cities::LosAngeles => 24,
            Cities::Madrid => 25,
            Cities::Manila => 26,
            Cities::MexicoCity => 27,
            Cities::Miami => 28,
            Cities::Milan => 29,
            Cities::Montreal => 30,
            Cities::Moscow => 31,
            Cities::Mumbai => 32,
            Cities::NewYork => 33,
            Cities::Osaka => 34,
            Cities::Paris => 35,
            Cities::Riyadh => 36,
            Cities::SaintPetersburg => 37,
            Cities::SanFrancisco => 38,
            Cities::Santiago => 39,
            Cities::SaoPaulo => 40,
            Cities::Seoul => 41,
            Cities::Shanghai => 42,
            Cities::Sydney => 43,
            Cities::Taipei => 44,
            Cities::Tehran => 45,
            Cities::Tokyo => 46,
            Cities::Washington => 47,
        }
    }

    /// The city at position `i`, if there is one.
    pub fn from_index(i: usize) -> (city: Option<Cities>)
        ensures
            i < CITY_COUNT ==> city == Some(Cities::at(i as int)),
            i >= CITY_COUNT ==> city is None,
    {
        match i {
            0 => Some(Cities::Algiers),
            1 => Some(Cities::Atlanta),
            2 => Some(Cities::Baghdad),
            3 => Some(Cities::Bangkok),
            4 => Some(Cities::Beijing),
            5 => Some(Cities::Bogota),
            6 => Some(Cities::BuenosAires),
            7 => Some(Cities::Cairo),
            8 => Some(Cities::Chennai),
            9 => Some(Cities::Chicago),
            10 => Some(Cities::Delhi),
            11 => Some(Cities::Essen),
            12 => Some(Cities::HoChiMinhCity),
            13 => Some(Cities::HongKong),
            14 => Some(Cities::Istanbul),
            15 => Some(Cities::Jakarta),
            16 => Some(Cities::Johannesburg),
            17 => Some(Cities::Karachi),
            18 => Some(Cities::Khartoum),
            19 => Some(Cities::Kinshasa),
            20 => Some(Cities::Kolkata),
            21 => Some(Cities::Lagos),
            22 => Some(Cities::Lima),
            23 => Some(Cities::London),
            24 => Some(Cities::LosAngeles),
            25 => Some(Cities::Madrid),
            26 => Some(Cities::Manila),
            27 => Some(Cities::MexicoCity),
            28 => Some(Cities::Miami),
            29 => Some(Cities::Milan),
            30 => Some(Cities::Montreal),
            31 => Some(Cities::Moscow),
            32 => Some(Cities::Mumbai),
            33 => Some(Cities::NewYork),
            34 => Some(Cities::Osaka),
            35 => Some(Cities::Paris),
            36 => Some(Cities::Riyadh),
            37 => Some(Cities::SaintPetersburg),
            38 => Some(Cities::SanFrancisco),
            39 => Some(Cities::Santiago),
            40 => Some(Cities::SaoPaulo),
            41 => Some(Cities::Seoul),
            42 => Some(Cities::Shanghai),
            43 => Some(Cities::Sydney),
            44 => Some(Cities::Taipei),
            45 => Some(Cities::Tehran),
            46 => Some(Cities::Tokyo),
            47 => Some(Cities::Washington),
            _ => None,
        }
    }

    /// The colour of the disease that is native to the city.
    pub fn color(self) -> (color: Color)
        ensures
            color == self.native_color(),
    {
        match self {
            Cities::Algiers => Color::Black,
            Cities::Atlanta => Color::Blue,
            Cities::Baghdad => Color::Black,
            Cities::Bangkok => Color::Red,
            Cities::Beijing => Color::Red,
            Cities::Bogota => Color::Yellow,
            Cities::BuenosAires => Color::Yellow,
            Cities::Cairo => Color::Black,
            Cities::Chennai => Color::Black,
            Cities::Chicago => Color::Blue,
            Cities::Delhi => Color::Black,
            Cities::Essen => Color::Blue,
            Cities::HoChiMinhCity => Color::Red,
            Cities::HongKong => Color::Red,
            Cities::Istanbul => Color::Black,
            Cities::Jakarta => Color::Red,
            Cities::Johannesburg => Color::Yellow,
            Cities::Karachi => Color::Black,
            Cities::Khartoum => Color::Yellow,
            Cities::Kinshasa => Color::Yellow,
            Cities::Kolkata => Color::Black,
            Cities::Lagos => Color::Yellow,
            Cities::Lima => Color::Yellow,
            Cities::London => Color::Blue,
            Cities::LosAngeles => Color::Yellow,
            Cities::Madrid => Color::Blue,
            Cities::Manila => Color::Red,
            Cities::MexicoCity => Color::Yellow,
            Cities::Miami => Color::Yellow,
            Cities::Milan => Color::Blue,
            Cities::Montreal => Color::Blue,
            Cities::Moscow => Color::Black,
            Cities::Mumbai => Color::Black,
            Cities::NewYork => Color::Blue,
            Cities::Osaka => Color::Red,
            Cities::Paris => Color::Blue,
            Cities::Riyadh => Color::Black,
            Cities::SaintPetersburg => Color::Blue,
            Cities::SanFrancisco => Color::Blue,
            Cities::Santiago => Color::Yellow,
            Cities::SaoPaulo => Color::Yellow,
            Cities::Seoul => Color::Red,
            Cities::Shanghai => Color::Red,
            Cities::Sydney => Color::Red,
            Cities::Taipei => Color::Red,
            Cities::Tehran => Color::Black,
            Cities::Tokyo => Color::Red,
            Cities::Washington => Color::Blue,
        }
    }

    /// The city's name.
    pub fn name(self) -> (s: &'static str)
        ensures
            s@ == self.label(),
    {
        CITY_NAMES[self.index()]
    }
}

/// The cities next to `city`, in alphabetical order.
pub open spec fn neighbours(city: Cities) -> Seq<Cities> {
    match city {
        Cities::Algiers => seq![Cities::Cairo, Cities::Istanbul, Cities::Madrid, Cities::Paris],
        Cities::Atlanta => seq![Cities::Chicago, Cities::Miami, Cities::Washington],
        Cities::Baghdad => seq![Cities::Cairo, Cities::Istanbul, Cities::Karachi, Cities::Riyadh, Cities::Tehran],
        Cities::Bangkok => seq![Cities::Chennai, Cities::HoChiMinhCity, Cities::HongKong, Cities::Jakarta, Cities::Kolkata],
        Cities::Beijing => seq![Cities::Seoul, Cities::Shanghai],
        Cities::Bogota => seq![Cities::BuenosAires, Cities::Lima, Cities::MexicoCity, Cities::Miami, Cities::SaoPaulo],
        Cities::BuenosAires => seq![Cities::Bogota, Cities::SaoPaulo],
        Cities::Cairo => seq![Cities::Algiers, Cities::Baghdad, Cities::Istanbul, Cities::Khartoum, Cities::Riyadh],
        Cities::Chennai => seq![Cities::Bangkok, Cities::Delhi, Cities::Jakarta, Cities::Kolkata, Cities::Mumbai],
        Cities::Chicago => seq![Cities::Atlanta, Cities::LosAngeles, Cities::MexicoCity, Cities::Montreal, Cities::SanFrancisco],
        Cities::Delhi => seq![Cities::Chennai, Cities::Karachi, Cities::Kolkata, Cities::Mumbai, Cities::Tehran],
        Cities::Essen => seq![Cities::London, Cities::Milan, Cities::Paris, Cities::SaintPetersburg],
        Cities::HoChiMinhCity => seq![Cities::Bangkok, Cities::HongKong, Cities::Jakarta, Cities::Manila],
        Cities::HongKong => seq![Cities::Bangkok, Cities::HoChiMinhCity, Cities::Kolkata, Cities::Manila, Cities::Shanghai, Cities::Taipei],
        Cities::Istanbul => seq![Cities::Algiers, Cities::Baghdad, Cities::Cairo, Cities::Milan, Cities::Moscow, Cities::SaintPetersburg],
        Cities::Jakarta => seq![Cities::Bangkok, Cities::Chennai, Cities::HoChiMinhCity, Cities::Sydney],
        Cities::Johannesburg => seq![Cities::Khartoum, Cities::Kinshasa],
        Cities::Karachi => seq![Cities::Baghdad, Cities::Delhi, Cities::Mumbai, Cities::Riyadh, Cities::Tehran],
        Cities::Khartoum => seq![Cities::Cairo, Cities::Johannesburg, Cities::Kinshasa, Cities::Lagos],
        Cities::Kinshasa => seq![Cities::Johannesburg, Cities::Khartoum, Cities::Lagos],
        Cities::Kolkata => seq![Cities::Bangkok, Cities::Chennai, Cities::Delhi, Cities::HongKong],
        Cities::Lagos => seq![Cities::Khartoum, Cities::Kinshasa, Cities::SaoPaulo],
        Cities::Lima => seq![Cities::Bogota, Cities::MexicoCity, Cities::Santiago],
        Cities::London => seq![Cities::Essen, Cities::Madrid, Cities::NewYork, Cities::Paris],
        Cities::LosAngeles => seq![Cities::Chicago, Cities::MexicoCity, Cities::SanFrancisco, Cities::Sydney],
        Cities::Madrid => seq![Cities::Algiers, Cities::London, Cities::NewYork, Cities::Paris, Cities::SaoPaulo],
        Cities::Manila => seq![Cities::HoChiMinhCity, Cities::HongKong, Cities::SanFrancisco, Cities::Sydney, Cities::Taipei],
        Cities::MexicoCity => seq![Cities::Bogota, Cities::Chicago, Cities::Lima, Cities::LosAngeles, Cities::Miami],
        Cities::Miami => seq![Cities::Atlanta, Cities::Bogota, Cities::MexicoCity, Cities::Washington],
        Cities::Milan => seq![Cities::Essen, Cities::Istanbul, Cities::Paris],
        Cities::Montreal => seq![Cities::Chicago, Cities::NewYork, Cities::Washington],
        Cities::Moscow => seq![Cities::Istanbul, Cities::SaintPetersburg, Cities::Tehran],
        Cities::Mumbai => seq![Cities::Chennai, Cities::Delhi, Cities::Karachi],
        Cities::NewYork => seq![Cities::London, Cities::Madrid, Cities::Montreal, Cities::Washington],
        Cities::Osaka => seq![Cities::Taipei, Cities::Tokyo],
        Cities::Paris => seq![Cities::Algiers, Cities::Essen, Cities::London, Cities::Madrid, Cities::Milan],
        Cities::Riyadh => seq![Cities::Baghdad, Cities::Cairo, Cities::Karachi],
        Cities::SaintPetersburg => seq![Cities::Essen, Cities::Istanbul, Cities::Moscow],
        Cities::SanFrancisco => seq![Cities::Chicago, Cities::LosAngeles, Cities::Manila, Cities::Tokyo],
        Cities::Santiago => seq![Cities::Lima],
        Cities::SaoPaulo => seq![Cities::Bogota, Cities::BuenosAires, Cities::Lagos, Cities::Madrid],
        Cities::Seoul => seq![Cities::Beijing, Cities::Shanghai, Cities::Tokyo],
        Cities::Shanghai => seq![Cities::Beijing, Cities::HongKong, Cities::Seoul, Cities::Taipei, Cities::Tokyo],
        Cities::Sydney => seq![Cities::Jakarta, Cities::LosAngeles, Cities::Manila],
        Cities::Taipei => seq![Cities::HongKong, Cities::Manila, Cities::Osaka, Cities::Shanghai],
        Cities::Tehran => seq![Cities::Baghdad, Cities::Delhi, Cities::Karachi, Cities::Moscow],
        Cities::Tokyo => seq![Cities::Osaka, Cities::SanFrancisco, Cities::Seoul, Cities::Shanghai],
        Cities::Washington => seq![Cities::Atlanta, Cities::Miami, Cities::Montreal, Cities::NewYork],
    }
}

/// One entry of the map: a city, its colour and the cities next to it.
#[derive(Debug)]
pub struct City {
    pub city: Cities,
    pub color: Color,
    pub adjacent_cities: Vec<Cities>,
}

impl City {
    /// The entry is the one that the map holds for `city`.
    pub open spec fn describes(&self, city: Cities) -> bool {
        &&& self.city == city
        &&& self.color == city.native_color()
        &&& self.adjacent_cities@ == neighbours(city)
    }
}

/// The blue cities, in the order in which the map lists them.
pub open spec fn blue_listing(i: int) -> Cities {
    if i == 0 {
        Cities::Atlanta
    } else if i == 1 {
        Cities::Chicago
    } else if i == 2 {
        Cities::Essen
    } else if i == 3 {
        Cities::London
    } else if i == 4 {
        Cities::Madrid
    } else if i == 5 {
        Cities::Milan
    } else if i == 6 {
        Cities::Montreal
    } else if i == 7 {
        Cities::NewYork
    } else if i == 8 {
        Cities::Paris
    } else if i == 9 {
        Cities::SaintPetersburg
    } else if i == 10 {
        Cities::SanFrancisco
    } else {
        Cities::Washington
    }
}

/// The yellow cities, in the order in which the map lists them.
pub open spec fn yellow_listing(i: int) -> Cities {
    if i == 0 {
        Cities::Bogota
    } else if i == 1 {
        Cities::BuenosAires
    } else if i == 2 {
        Cities::Johannesburg
    } else if i == 3 {
        Cities::Kinshasa
    } else if i == 4 {
        Cities::Khartoum
    } else if i == 5 {
        Cities::Lagos
    } else if i == 6 {
        Cities::Lima
    } else if i == 7 {
        Cities::LosAngeles
    } else if i == 8 {
        Cities::MexicoCity
    } else if i == 9 {
        Cities::Miami
    } else if i == 10 {
        Cities::Santiago
    } else {
        Cities::SaoPaulo
    }
}

/// The black cities, in the order in which the map lists them.
pub open spec fn black_listing(i: int) -> Cities {
    if i == 0 {
        Cities::Algiers
    } else if i == 1 {
        Cities::Baghdad
    } else if i == 2 {
        Cities::Cairo
    } else if i == 3 {
        Cities::Chennai
    } else if i == 4 {
        Cities::Delhi
    } else if i == 5 {
        Cities::Istanbul
    } else if i == 6 {
        Cities::Karachi
    } else if i == 7 {
        Cities::Kolkata
    } else if i == 8 {
        Cities::Mumbai
    } else if i == 9 {
        Cities::Moscow
    } else if i == 10 {
        Cities::Riyadh
    } else {
        Cities::Tehran
    }
}

/// The red cities, in the order in which the map lists them.
pub open spec fn red_listing(i: int) -> Cities {
    if i == 0 {
        Cities::Bangkok
    } else if i == 1 {
        Cities::Beijing
    } else if i == 2 {
        Cities::HoChiMinhCity
    } else if i == 3 {
        Cities::HongKong
    } else if i == 4 {
        Cities::Jakarta
    } else if i == 5 {
        Cities::Manila
    } else if i == 6 {
        Cities::Osaka
    } else if i == 7 {
        Cities::Seoul
    } else if i == 8 {
        Cities::Shanghai
    } else if i == 9 {
        Cities::Sydney
    } else if i == 10 {
        Cities::Taipei
    } else {
        Cities::Tokyo
    }
}

/// The city that the map lists at position `i`: the blue cities first, then
/// the yellow, the black and the red ones.
pub open spec fn listing(i: int) -> Cities {
    if i < 12 {
        blue_listing(i)
    } else if i < 24 {
        yellow_listing(i - 12)
    } else if i < 36 {
        black_listing(i - 24)
    } else {
        red_listing(i - 36)
    }
}

/// The position at which the map lists `city`.
pub open spec fn listing_slot(city: Cities) -> int {
    match city {
        Cities::Algiers => 24,
        Cities::Atlanta => 0,
        Cities::Baghdad => 25,
        Cities::Bangkok => 36,
        Cities::Beijing => 37,
        Cities::Bogota => 12,
        Cities::BuenosAires => 13,
        Cities::Cairo => 26,
        Cities::Chennai => 27,
        Cities::Chicago => 1,
        Cities::Delhi => 28,
        Cities::Essen => 2,
        Cities::HoChiMinhCity => 38,
        Cities::HongKong => 39,
        Cities::Istanbul => 29,
        Cities::Jakarta => 40,
        Cities::Johannesburg => 14,
        Cities::Karachi => 30,
        Cities::Khartoum => 16,
        Cities::Kinshasa => 15,
        Cities::Kolkata => 31,
        Cities::Lagos => 17,
        Cities::Lima => 18,
        Cities::London => 3,
        Cities::LosAngeles => 19,
        Cities::Madrid => 4,
        Cities::Manila => 41,
        Cities::MexicoCity => 20,
        Cities::Miami => 21,
        Cities::Milan => 5,
        Cities::Montreal => 6,
        Cities::Moscow => 33,
        Cities::Mumbai => 32,
        Cities::NewYork => 7,
        Cities::Osaka => 42,
        Cities::Paris => 8,
        Cities::Riyadh => 34,
        Cities::SaintPetersburg => 9,
        Cities::SanFrancisco => 10,
        Cities::Santiago => 22,
        Cities::SaoPaulo => 23,
        Cities::Seoul => 43,
        Cities::Shanghai => 44,
        Cities::Sydney => 45,
        Cities::Taipei => 46,
        Cities::Tehran => 35,
        Cities::Tokyo => 47,
        Cities::Washington => 11,
    }
}

/// No city is listed twice: a position of the listing is the position at
/// which its city is listed.
pub proof fn lemma_listing_slot_inverse(i: int)
    requires
        0 <= i < CITY_COUNT,
    ensures
        listing_slot(listing(i)) == i,
{
}

/// Every city is listed, at the position that `listing_slot` gives.
pub proof fn lemma_listing_complete(city: Cities)
    ensures
        0 <= listing_slot(city) < CITY_COUNT,
        listing(listing_slot(city)) == city,
{
}

fn make_blue_cities() -> (cities: Vec<City>)
    ensures
        cities.len() == 12,
        forall|i: int| 0 <= i < 12 ==> (#[trigger] cities[i]).describes(blue_listing(i)),
{
    let cities = vec![
        City {
            city: Cities::Atlanta,
            color: Color::Blue,
            adjacent_cities: vec![Cities::Chicago, Cities::Miami, Cities::Washington],
        },
        City {
            city: Cities::Chicago,
            color: Color::Blue,
            adjacent_cities: vec![
                Cities::Atlanta,
                Cities::LosAngeles,
                Cities::MexicoCity,
                Cities::Montreal,
                Cities::SanFrancisco,
            ],
        },
        City {
            city: Cities::Essen,
            color: Color::Blue,
            adjacent_cities: vec![
                Cities::London,
                Cities::Milan,
                Cities::Paris,
                Cities::SaintPetersburg,
            ],
        },
        City {
            city: Cities::London,
            color: Color::Blue,
            adjacent_cities: vec![
                Cities::Essen,
                Cities::Madrid,
                Cities::NewYork,
                Cities::Paris,
            ],
        },
        City {
            city: Cities::Madrid,
            color: Color::Blue,
            adjacent_cities: vec![
                Cities::Algiers,
                Cities::London,
                Cities::NewYork,
                Cities::Paris,
                Cities::SaoPaulo,
            ],
        },
        City {
            city: Cities::Milan,
            color: Color::Blue,
            adjacent_cities: vec![Cities::Essen, Cities::Istanbul, Cities::Paris],
        },
        City {
            city: Cities::Montreal,
            color: Color::Blue,
            adjacent_cities: vec![Cities::Chicago, Cities::NewYork, Cities::Washington],
        },
        City {
            city: Cities::NewYork,
            color: Color::Blue,
            adjacent_cities: vec![
                Cities::London,
                Cities::Madrid,
                Cities::Montreal,
                Cities::Washington,
            ],
        },
        City {
            city: Cities::Paris,
            color: Color::Blue,
            adjacent_cities: vec![
                Cities::Algiers,
                Cities::Essen,
                Cities::London,
                Cities::Madrid,
                Cities::Milan,
            ],
        },
        City {
            city: Cities::SaintPetersburg,
            color: Color::Blue,
            adjacent_cities: vec![Cities::Essen, Cities::Istanbul, Cities::Moscow],
        },
        City {
            city: Cities::SanFrancisco,
            color: Color::Blue,
            adjacent_cities: vec![
                Cities::Chicago,
                Cities::LosAngeles,
                Cities::Manila,
                Cities::Tokyo,
            ],
        },
        City {
            city: Cities::Washington,
            color: Color::Blue,
            adjacent_cities: vec![
                Cities::Atlanta,
                Cities::Miami,
                Cities::Montreal,
                Cities::NewYork,
            ],
        },
    ];
    cities
}

fn make_yellow_cities() -> (cities: Vec<City>)
    ensures
        cities.len() == 12,
        forall|i: int| 0 <= i < 12 ==> (#[trigger] cities[i]).describes(yellow_listing(i)),
{
    let cities = vec![
        City {
            city: Cities::Bogota,
            color: Color::Yellow,
            adjacent_cities: vec![
                Cities::BuenosAires,
                Cities::Lima,
                Cities::MexicoCity,
                Cities::Miami,
                Cities::SaoPaulo,
            ],
        },
        City {
            city: Cities::BuenosAires,
            color: Color::Yellow,
            adjacent_cities: vec![Cities::Bogota, Cities::SaoPaulo],
        },
        City {
            city: Cities::Johannesburg,
            color: Color::Yellow,
            adjacent_cities: vec![Cities::Khartoum, Cities::Kinshasa],
        },
        City {
            city: Cities::Kinshasa,
            color: Color::Yellow,
            adjacent_cities: vec![Cities::Johannesburg, Cities::Khartoum, Cities::Lagos],
        },
        City {
            city: Cities::Khartoum,
            color: Color::Yellow,
            adjacent_cities: vec![
                Cities::Cairo,
                Cities::Johannesburg,
                Cities::Kinshasa,
                Cities::Lagos,
            ],
        },
        City {
            city: Cities::Lagos,
            color: Color::Yellow,
            adjacent_cities: vec![Cities::Khartoum, Cities::Kinshasa, Cities::SaoPaulo],
        },
        City {
            city: Cities::Lima,
            color: Color::Yellow,
            adjacent_cities: vec![Cities::Bogota, Cities::MexicoCity, Cities::Santiago],
        },
        City {
            city: Cities::LosAngeles,
            color: Color::Yellow,
            adjacent_cities: vec![
                Cities::Chicago,
                Cities::MexicoCity,
                Cities::SanFrancisco,
                Cities::Sydney,
            ],
        },
        City {
            city: Cities::MexicoCity,
            color: Color::Yellow,
            adjacent_cities: vec![
                Cities::Bogota,
                Cities::Chicago,
                Cities::Lima,
                Cities::LosAngeles,
                Cities::Miami,
            ],
        },
        City {
            city: Cities::Miami,
            color: Color::Yellow,
            adjacent_cities: vec![
                Cities::Atlanta,
                Cities::Bogota,
                Cities::MexicoCity,
                Cities::Washington,
            ],
        },
        City {
            city: Cities::Santiago,
            color: Color::Yellow,
            adjacent_cities: vec![Cities::Lima],
        },
        City {
            city: Cities::SaoPaulo,
            color: Color::Yellow,
            adjacent_cities: vec![
                Cities::Bogota,
                Cities::BuenosAires,
                Cities::Lagos,
                Cities::Madrid,
            ],
        },
    ];
    assert(cities[10].adjacent_cities@ =~= neighbours(Cities::Santiago));
    cities
}

fn make_black_cities() -> (cities: Vec<City>)
    ensures
        cities.len() == 12,
        forall|i: int| 0 <= i < 12 ==> (#[trigger] cities[i]).describes(black_listing(i)),
{
    let cities = vec![
        City {
            city: Cities::Algiers,
            color: Color::Black,
            adjacent_cities: vec![
                Cities::Cairo,
                Cities::Istanbul,
                Cities::Madrid,
                Cities::Paris,
            ],
        },
        City {
            city: Cities::Baghdad,
            color: Color::Black,
            adjacent_cities: vec![
                Cities::Cairo,
                Cities::Istanbul,
                Cities::Karachi,
                Cities::Riyadh,
                Cities::Tehran,
            ],
        },
        City {
            city: Cities::Cairo,
            color: Color::Black,
            adjacent_cities: vec![
                Cities::Algiers,
                Cities::Baghdad,
                Cities::Istanbul,
                Cities::Khartoum,
                Cities::Riyadh,
            ],
        },
        City {
            city: Cities::Chennai,
            color: Color::Black,
            adjacent_cities: vec![
                Cities::Bangkok,
                Cities::Delhi,
                Cities::Jakarta,
                Cities::Kolkata,
                Cities::Mumbai,
            ],
        },
        City {
            city: Cities::Delhi,
            color: Color::Black,
            adjacent_cities: vec![
                Cities::Chennai,
                Cities::Karachi,
                Cities::Kolkata,
                Cities::Mumbai,
                Cities::Tehran,
            ],
        },
        City {
            city: Cities::Istanbul,
            color: Color::Black,
            adjacent_cities: vec![
                Cities::Algiers,
                Cities::Baghdad,
                Cities::Cairo,
                Cities::Milan,
                Cities::Moscow,
                Cities::SaintPetersburg,
            ],
        },
        City {
            city: Cities::Karachi,
            color: Color::Black,
            adjacent_cities: vec![
                Cities::Baghdad,
                Cities::Delhi,
                Cities::Mumbai,
                Cities::Riyadh,
                Cities::Tehran,
            ],
        },
        City {
            city: Cities::Kolkata,
            color: Color::Black,
            adjacent_cities: vec![
                Cities::Bangkok,
                Cities::Chennai,
                Cities::Delhi,
                Cities::HongKong,
            ],
        },
        City {
            city: Cities::Mumbai,
            color: Color::Black,
            adjacent_cities: vec![Cities::Chennai, Cities::Delhi, Cities::Karachi],
        },
        City {
            city: Cities::Moscow,
            color: Color::Black,
            adjacent_cities: vec![Cities::Istanbul, Cities::SaintPetersburg, Cities::Tehran],
        },
        City {
            city: Cities::Riyadh,
            color: Color::Black,
            adjacent_cities: vec![Cities::Baghdad, Cities::Cairo, Cities::Karachi],
        },
        City {
            city: Cities::Tehran,
            color: Color::Black,
            adjacent_cities: vec![
                Cities::Baghdad,
                Cities::Delhi,
                Cities::Karachi,
                Cities::Moscow,
            ],
        },
    ];
    cities
}

fn make_red_cities() -> (cities: Vec<City>)
    ensures
        cities.len() == 12,
        forall|i: int| 0 <= i < 12 ==> (#[trigger] cities[i]).describes(red_listing(i)),
{
    let cities = vec![
        City {
            city: Cities::Bangkok,
            color: Color::Red,
            adjacent_cities: vec![
                Cities::Chennai,
                Cities::HoChiMinhCity,
                Cities::HongKong,
                Cities::Jakarta,
                Cities::Kolkata,
            ],
        },
        City {
            city: Cities::Beijing,
            color: Color::Red,
            adjacent_cities: vec![Cities::Seoul, Cities::Shanghai],
        },
        City {
            city: Cities::HoChiMinhCity,
            color: Color::Red,
            adjacent_cities: vec![
                Cities::Bangkok,
                Cities::HongKong,
                Cities::Jakarta,
                Cities::Manila,
            ],
        },
        City {
            city: Cities::HongKong,
            color: Color::Red,
            adjacent_cities: vec![
                Cities::Bangkok,
                Cities::HoChiMinhCity,
                Cities::Kolkata,
                Cities::Manila,
                Cities::Shanghai,
                Cities::Taipei,
            ],
        },
        City {
            city: Cities::Jakarta,
            color: Color::Red,
            adjacent_cities: vec![
                Cities::Bangkok,
                Cities::Chennai,
                Cities::HoChiMinhCity,
                Cities::Sydney,
            ],
        },
        City {
            city: Cities::Manila,
            color: Color::Red,
            adjacent_cities: vec![
                Cities::HoChiMinhCity,
                Cities::HongKong,
                Cities::SanFrancisco,
                Cities::Sydney,
                Cities::Taipei,
            ],
        },
        City {
            city: Cities::Osaka,
            color: Color::Red,
            adjacent_cities: vec![Cities::Taipei, Cities::Tokyo],
        },
        City {
            city: Cities::Seoul,
            color: Color::Red,
            adjacent_cities: vec![Cities::Beijing, Cities::Shanghai, Cities::Tokyo],
        },
        City {
            city: Cities::Shanghai,
            color: Color::Red,
            adjacent_cities: vec![
                Cities::Beijing,
                Cities::HongKong,
                Cities::Seoul,
                Cities::Taipei,
                Cities::Tokyo,
            ],
        },
        City {
            city: Cities::Sydney,
            color: Color::Red,
            adjacent_cities: vec![Cities::Jakarta, Cities::LosAngeles, Cities::Manila],
        },
        City {
            city: Cities::Taipei,
            color: Color::Red,
            adjacent_cities: vec![
                Cities::HongKong,
                Cities::Manila,
                Cities::Osaka,
                Cities::Shanghai,
            ],
        },
        City {
            city: Cities::Tokyo,
            color: Color::Red,
            adjacent_cities: vec![
                Cities::Osaka,
                Cities::SanFrancisco,
                Cities::Seoul,
                Cities::Shanghai,
            ],
        },
    ];
    cities
}
fn make_cities() -> (cities: Vec<City>)
    ensures
        cities.len() == CITY_COUNT,
        forall|i: int| 0 <= i < CITY_COUNT ==> (#[trigger] cities[i]).describes(listing(i)),
{
    let mut cities = Vec::new();
    let mut blue = make_blue_cities();
    let mut yellow = make_yellow_cities();
    let mut black = make_black_cities();
    let mut red = make_red_cities();
    cities.append(&mut blue);
    cities.append(&mut yellow);
    cities.append(&mut black);
    cities.append(&mut red);
    cities
}

/// The cities in the order in which the map lists them.
pub open spec fn listed() -> Seq<Cities> {
    Seq::new(CITY_COUNT as nat, |i: int| listing(i))
}

/// The cities in the order in which the map lists them: by colour, the blue
/// ones first.
pub fn listed_cities() -> (cities: Vec<Cities>)
    ensures
        cities@ == listed(),
{
    let entries = make_cities();
    let mut cities: Vec<Cities> = Vec::new();
    let mut i: usize = 0;
    while i < entries.len()
        invariant
            entries.len() == CITY_COUNT,
            forall|k: int| 0 <= k < CITY_COUNT ==> (#[trigger] entries[k]).describes(listing(k)),
            i <= CITY_COUNT,
            cities.len() == i,
            forall|k: int| 0 <= k < i ==> cities[k] == listing(k),
        decreases CITY_COUNT - i,
    {
        assert(entries[i as int].describes(listing(i as int)));
        cities.push(entries[i].city);
        i += 1;
    }
    assert(cities@ =~= listed());
    cities
}

/// The static graph of the world: 48 cities, each with its colour and the
/// cities next to it. It does not change once it is built.
pub struct WorldMap {
    cities: Vec<City>,
}

impl WorldMap {
    #[verifier::type_invariant]
    spec fn well_formed(self) -> bool {
        &&& self.cities.len() == CITY_COUNT
        &&& forall|i: int| 0 <= i < CITY_COUNT ==> (#[trigger] self.cities[i]).describes(listing(i))
    }

    /// The cities in the order in which the map holds them.
    pub closed spec fn entries(&self) -> Seq<Cities> {
        Seq::new(self.cities.len() as nat, |i: int| self.cities[i].city)
    }

    /// The map of the 48 cities.
    pub fn new() -> (map: Self)
        ensures
            map.entries() == listed(),
    {
        let map = WorldMap { cities: make_cities() };
        assert(map.entries() =~= listed());
        map
    }

    /// The cities next to `city`, in alphabetical order.
    pub fn adjacent_to(&self, city: Cities) -> (adjacent: Option<Vec<Cities>>)
        ensures
            adjacent is Some,
            adjacent.unwrap()@ == neighbours(city),
    {
        proof {
            use_type_invariant(self);
            lemma_listing_complete(city);
        }
        let mut i: usize = 0;
        while i < self.cities.len()
            invariant
                self.cities.len() == CITY_COUNT,
                forall|k: int| 0 <= k < CITY_COUNT ==> (#[trigger] self.cities[k]).describes(listing(k)),
                i <= CITY_COUNT,
                forall|k: int| 0 <= k < i ==> (#[trigger] self.cities[k]).city != city,
            decreases CITY_COUNT - i,
        {
            if self.cities[i].city == city {
                return Some(self.cities[i].adjacent_cities.clone());
            }
            i += 1;
        }
        assert(self.cities[listing_slot(city)].describes(city));
        None
    }

    /// Whether the map links the two cities, in either direction.
    pub fn is_adjacent(&self, from: Cities, to: Cities) -> (linked: bool)
        ensures
            linked == crate::map::linked(from, to),
    {
        let forward = match self.adjacent_to(from) {
            Some(cities) => contains_city(&cities, to),
            None => false,
        };
        if forward {
            return true;
        }
        match self.adjacent_to(to) {
            Some(cities) => contains_city(&cities, from),
            None => false,
        }
    }

    /// All the cities of the map, in alphabetical order.
    pub fn all_cities(&self) -> (cities: Vec<Cities>)
        ensures
            cities@ == every_city(),
    {
        list_cities()
    }
}

/// Whether the map links the two cities, in either direction.
pub open spec fn linked(from: Cities, to: Cities) -> bool {
    neighbours(from).contains(to) || neighbours(to).contains(from)
}

/// The map is symmetric: a city lies next to those that lie next to it.
pub proof fn lemma_map_symmetric(from: Cities, to: Cities)
    ensures
        neighbours(from).contains(to) == neighbours(to).contains(from),
{
    if neighbours(from).contains(to) {
        lemma_link_returns(from, to);
    }
    if neighbours(to).contains(from) {
        lemma_link_returns(to, from);
    }
}

/// The map links two cities where one of them is listed next to the other.
pub proof fn lemma_linked_both_ways(from: Cities, to: Cities)
    ensures
        linked(from, to) == neighbours(from).contains(to),
        linked(from, to) == linked(to, from),
{
    lemma_map_symmetric(from, to);
}

/// A city that lies next to another has that one among its own neighbours.
proof fn lemma_link_returns(from: Cities, to: Cities)
    requires
        neighbours(from).contains(to),
    ensures
        neighbours(to).contains(from),
{
    let near = neighbours(from);
    let at = choose|at: int| 0 <= at < near.len() && near[at] == to;
    match from {
        Cities::Algiers => {
            assert(neighbours(Cities::Cairo)[0] == Cities::Algiers);
            assert(neighbours(Cities::Istanbul)[0] == Cities::Algiers);
            assert(neighbours(Cities::Madrid)[0] == Cities::Algiers);
            assert(neighbours(Cities::Paris)[0] == Cities::Algiers);
        },
        Cities::Atlanta => {
            assert(neighbours(Cities::Chicago)[0] == Cities::Atlanta);
            assert(neighbours(Cities::Miami)[0] == Cities::Atlanta);
            assert(neighbours(Cities::Washington)[0] == Cities::Atlanta);
        },
        Cities::Baghdad => {
            assert(neighbours(Cities::Cairo)[1] == Cities::Baghdad);
            assert(neighbours(Cities::Istanbul)[1] == Cities::Baghdad);
            assert(neighbours(Cities::Karachi)[0] == Cities::Baghdad);
            assert(neighbours(Cities::Riyadh)[0] == Cities::Baghdad);
            assert(neighbours(Cities::Tehran)[0] == Cities::Baghdad);
        },
        Cities::Bangkok => {
            assert(neighbours(Cities::Chennai)[0] == Cities::Bangkok);
            assert(neighbours(Cities::HoChiMinhCity)[0] == Cities::Bangkok);
            assert(neighbours(Cities::HongKong)[0] == Cities::Bangkok);
            assert(neighbours(Cities::Jakarta)[0] == Cities::Bangkok);
            assert(neighbours(Cities::Kolkata)[0] == Cities::Bangkok);
        },
        Cities::Beijing => {
            assert(neighbours(Cities::Seoul)[0] == Cities::Beijing);
            assert(neighbours(Cities::Shanghai)[0] == Cities::Beijing);
        },
        Cities::Bogota => {
            assert(neighbours(Cities::BuenosAires)[0] == Cities::Bogota);
            assert(neighbours(Cities::Lima)[0] == Cities::Bogota);
            assert(neighbours(Cities::MexicoCity)[0] == Cities::Bogota);
            assert(neighbours(Cities::Miami)[1] == Cities::Bogota);
            assert(neighbours(Cities::SaoPaulo)[0] == Cities::Bogota);
        },
        Cities::BuenosAires => {
            assert(neighbours(Cities::Bogota)[0] == Cities::BuenosAires);
            assert(neighbours(Cities::SaoPaulo)[1] == Cities::BuenosAires);
        },
        Cities::Cairo => {
            assert(neighbours(Cities::Algiers)[0] == Cities::Cairo);
            assert(neighbours(Cities::Baghdad)[0] == Cities::Cairo);
            assert(neighbours(Cities::Istanbul)[2] == Cities::Cairo);
            assert(neighbours(Cities::Khartoum)[0] == Cities::Cairo);
            assert(neighbours(Cities::Riyadh)[1] == Cities::Cairo);
        },
        Cities::Chennai => {
            assert(neighbours(Cities::Bangkok)[0] == Cities::Chennai);
            assert(neighbours(Cities::Delhi)[0] == Cities::Chennai);
            assert(neighbours(Cities::Jakarta)[1] == Cities::Chennai);
            assert(neighbours(Cities::Kolkata)[1] == Cities::Chennai);
            assert(neighbours(Cities::Mumbai)[0] == Cities::Chennai);
        },
        Cities::Chicago => {
            assert(neighbours(Cities::Atlanta)[0] == Cities::Chicago);
            assert(neighbours(Cities::LosAngeles)[0] == Cities::Chicago);
            assert(neighbours(Cities::MexicoCity)[1] == Cities::Chicago);
            assert(neighbours(Cities::Montreal)[0] == Cities::Chicago);
            assert(neighbours(Cities::SanFrancisco)[0] == Cities::Chicago);
        },
        Cities::Delhi => {
            assert(neighbours(Cities::Chennai)[1] == Cities::Delhi);
            assert(neighbours(Cities::Karachi)[1] == Cities::Delhi);
            assert(neighbours(Cities::Kolkata)[2] == Cities::Delhi);
            assert(neighbours(Cities::Mumbai)[1] == Cities::Delhi);
            assert(neighbours(Cities::Tehran)[1] == Cities::Delhi);
        },
        Cities::Essen => {
            assert(neighbours(Cities::London)[0] == Cities::Essen);
            assert(neighbours(Cities::Milan)[0] == Cities::Essen);
            assert(neighbours(Cities::Paris)[1] == Cities::Essen);
            assert(neighbours(Cities::SaintPetersburg)[0] == Cities::Essen);
        },
        Cities::HoChiMinhCity => {
            assert(neighbours(Cities::Bangkok)[1] == Cities::HoChiMinhCity);
            assert(neighbours(Cities::HongKong)[1] == Cities::HoChiMinhCity);
            assert(neighbours(Cities::Jakarta)[2] == Cities::HoChiMinhCity);
            assert(neighbours(Cities::Manila)[0] == Cities::HoChiMinhCity);
        },
        Cities::HongKong => {
            assert(neighbours(Cities::Bangkok)[2] == Cities::HongKong);
            assert(neighbours(Cities::HoChiMinhCity)[1] == Cities::HongKong);
            assert(neighbours(Cities::Kolkata)[3] == Cities::HongKong);
            assert(neighbours(Cities::Manila)[1] == Cities::HongKong);
            assert(neighbours(Cities::Shanghai)[1] == Cities::HongKong);
            assert(neighbours(Cities::Taipei)[0] == Cities::HongKong);
        },
        Cities::Istanbul => {
            assert(neighbours(Cities::Algiers)[1] == Cities::Istanbul);
            assert(neighbours(Cities::Baghdad)[1] == Cities::Istanbul);
            assert(neighbours(Cities::Cairo)[2] == Cities::Istanbul);
            assert(neighbours(Cities::Milan)[1] == Cities::Istanbul);
            assert(neighbours(Cities::Moscow)[0] == Cities::Istanbul);
            assert(neighbours(Cities::SaintPetersburg)[1] == Cities::Istanbul);
        },
        Cities::Jakarta => {
            assert(neighbours(Cities::Bangkok)[3] == Cities::Jakarta);
            assert(neighbours(Cities::Chennai)[2] == Cities::Jakarta);
            assert(neighbours(Cities::HoChiMinhCity)[2] == Cities::Jakarta);
            assert(neighbours(Cities::Sydney)[0] == Cities::Jakarta);
        },
        Cities::Johannesburg => {
            assert(neighbours(Cities::Khartoum)[1] == Cities::Johannesburg);
            assert(neighbours(Cities::Kinshasa)[0] == Cities::Johannesburg);
        },
        Cities::Karachi => {
            assert(neighbours(Cities::Baghdad)[2] == Cities::Karachi);
            assert(neighbours(Cities::Delhi)[1] == Cities::Karachi);
            assert(neighbours(Cities::Mumbai)[2] == Cities::Karachi);
            assert(neighbours(Cities::Riyadh)[2] == Cities::Karachi);
            assert(neighbours(Cities::Tehran)[2] == Cities::Karachi);
        },
        Cities::Khartoum => {
            assert(neighbours(Cities::Cairo)[3] == Cities::Khartoum);
            assert(neighbours(Cities::Johannesburg)[0] == Cities::Khartoum);
            assert(neighbours(Cities::Kinshasa)[1] == Cities::Khartoum);
            assert(neighbours(Cities::Lagos)[0] == Cities::Khartoum);
        },
        Cities::Kinshasa => {
            assert(neighbours(Cities::Johannesburg)[1] == Cities::Kinshasa);
            assert(neighbours(Cities::Khartoum)[2] == Cities::Kinshasa);
            assert(neighbours(Cities::Lagos)[1] == Cities::Kinshasa);
        },
        Cities::Kolkata => {
            assert(neighbours(Cities::Bangkok)[4] == Cities::Kolkata);
            assert(neighbours(Cities::Chennai)[3] == Cities::Kolkata);
            assert(neighbours(Cities::Delhi)[2] == Cities::Kolkata);
            assert(neighbours(Cities::HongKong)[2] == Cities::Kolkata);
        },
        Cities::Lagos => {
            assert(neighbours(Cities::Khartoum)[3] == Cities::Lagos);
            assert(neighbours(Cities::Kinshasa)[2] == Cities::Lagos);
            assert(neighbours(Cities::SaoPaulo)[2] == Cities::Lagos);
        },
        Cities::Lima => {
            assert(neighbours(Cities::Bogota)[1] == Cities::Lima);
            assert(neighbours(Cities::MexicoCity)[2] == Cities::Lima);
            assert(neighbours(Cities::Santiago)[0] == Cities::Lima);
        },
        Cities::London => {
            assert(neighbours(Cities::Essen)[0] == Cities::London);
            assert(neighbours(Cities::Madrid)[1] == Cities::London);
            assert(neighbours(Cities::NewYork)[0] == Cities::London);
            assert(neighbours(Cities::Paris)[2] == Cities::London);
        },
        Cities::LosAngeles => {
            assert(neighbours(Cities::Chicago)[1] == Cities::LosAngeles);
            assert(neighbours(Cities::MexicoCity)[3] == Cities::LosAngeles);
            assert(neighbours(Cities::SanFrancisco)[1] == Cities::LosAngeles);
            assert(neighbours(Cities::Sydney)[1] == Cities::LosAngeles);
        },
        Cities::Madrid => {
            assert(neighbours(Cities::Algiers)[2] == Cities::Madrid);
            assert(neighbours(Cities::London)[1] == Cities::Madrid);
            assert(neighbours(Cities::NewYork)[1] == Cities::Madrid);
            assert(neighbours(Cities::Paris)[3] == Cities::Madrid);
            assert(neighbours(Cities::SaoPaulo)[3] == Cities::Madrid);
        },
        Cities::Manila => {
            assert(neighbours(Cities::HoChiMinhCity)[3] == Cities::Manila);
            assert(neighbours(Cities::HongKong)[3] == Cities::Manila);
            assert(neighbours(Cities::SanFrancisco)[2] == Cities::Manila);
            assert(neighbours(Cities::Sydney)[2] == Cities::Manila);
            assert(neighbours(Cities::Taipei)[1] == Cities::Manila);
        },
        Cities::MexicoCity => {
            assert(neighbours(Cities::Bogota)[2] == Cities::MexicoCity);
            assert(neighbours(Cities::Chicago)[2] == Cities::MexicoCity);
            assert(neighbours(Cities::Lima)[1] == Cities::MexicoCity);
            assert(neighbours(Cities::LosAngeles)[1] == Cities::MexicoCity);
            assert(neighbours(Cities::Miami)[2] == Cities::MexicoCity);
        },
        Cities::Miami => {
            assert(neighbours(Cities::Atlanta)[1] == Cities::Miami);
            assert(neighbours(Cities::Bogota)[3] == Cities::Miami);
            assert(neighbours(Cities::MexicoCity)[4] == Cities::Miami);
            assert(neighbours(Cities::Washington)[1] == Cities::Miami);
        },
        Cities::Milan => {
            assert(neighbours(Cities::Essen)[1] == Cities::Milan);
            assert(neighbours(Cities::Istanbul)[3] == Cities::Milan);
            assert(neighbours(Cities::Paris)[4] == Cities::Milan);
        },
        Cities::Montreal => {
            assert(neighbours(Cities::Chicago)[3] == Cities::Montreal);
            assert(neighbours(Cities::NewYork)[2] == Cities::Montreal);
            assert(neighbours(Cities::Washington)[2] == Cities::Montreal);
        },
        Cities::Moscow => {
            assert(neighbours(Cities::Istanbul)[4] == Cities::Moscow);
            assert(neighbours(Cities::SaintPetersburg)[2] == Cities::Moscow);
            assert(neighbours(Cities::Tehran)[3] == Cities::Moscow);
        },
        Cities::Mumbai => {
            assert(neighbours(Cities::Chennai)[4] == Cities::Mumbai);
            assert(neighbours(Cities::Delhi)[3] == Cities::Mumbai);
            assert(neighbours(Cities::Karachi)[2] == Cities::Mumbai);
        },
        Cities::NewYork => {
            assert(neighbours(Cities::London)[2] == Cities::NewYork);
            assert(neighbours(Cities::Madrid)[2] == Cities::NewYork);
            assert(neighbours(Cities::Montreal)[1] == Cities::NewYork);
            assert(neighbours(Cities::Washington)[3] == Cities::NewYork);
        },
        Cities::Osaka => {
            assert(neighbours(Cities::Taipei)[2] == Cities::Osaka);
            assert(neighbours(Cities::Tokyo)[0] == Cities::Osaka);
        },
        Cities::Paris => {
            assert(neighbours(Cities::Algiers)[3] == Cities::Paris);
            assert(neighbours(Cities::Essen)[2] == Cities::Paris);
            assert(neighbours(Cities::London)[3] == Cities::Paris);
            assert(neighbours(Cities::Madrid)[3] == Cities::Paris);
            assert(neighbours(Cities::Milan)[2] == Cities::Paris);
        },
        Cities::Riyadh => {
            assert(neighbours(Cities::Baghdad)[3] == Cities::Riyadh);
            assert(neighbours(Cities::Cairo)[4] == Cities::Riyadh);
            assert(neighbours(Cities::Karachi)[3] == Cities::Riyadh);
        },
        Cities::SaintPetersburg => {
            assert(neighbours(Cities::Essen)[3] == Cities::SaintPetersburg);
            assert(neighbours(Cities::Istanbul)[5] == Cities::SaintPetersburg);
            assert(neighbours(Cities::Moscow)[1] == Cities::SaintPetersburg);
        },
        Cities::SanFrancisco => {
            assert(neighbours(Cities::Chicago)[4] == Cities::SanFrancisco);
            assert(neighbours(Cities::LosAngeles)[2] == Cities::SanFrancisco);
            assert(neighbours(Cities::Manila)[2] == Cities::SanFrancisco);
            assert(neighbours(Cities::Tokyo)[1] == Cities::SanFrancisco);
        },
        Cities::Santiago => {
            assert(neighbours(Cities::Lima)[2] == Cities::Santiago);
        },
        Cities::SaoPaulo => {
            assert(neighbours(Cities::Bogota)[4] == Cities::SaoPaulo);
            assert(neighbours(Cities::BuenosAires)[1] == Cities::SaoPaulo);
            assert(neighbours(Cities::Lagos)[2] == Cities::SaoPaulo);
            assert(neighbours(Cities::Madrid)[4] == Cities::SaoPaulo);
        },
        Cities::Seoul => {
            assert(neighbours(Cities::Beijing)[0] == Cities::Seoul);
            assert(neighbours(Cities::Shanghai)[2] == Cities::Seoul);
            assert(neighbours(Cities::Tokyo)[2] == Cities::Seoul);
        },
        Cities::Shanghai => {
            assert(neighbours(Cities::Beijing)[1] == Cities::Shanghai);
            assert(neighbours(Cities::HongKong)[4] == Cities::Shanghai);
            assert(neighbours(Cities::Seoul)[1] == Cities::Shanghai);
            assert(neighbours(Cities::Taipei)[3] == Cities::Shanghai);
            assert(neighbours(Cities::Tokyo)[3] == Cities::Shanghai);
        },
        Cities::Sydney => {
            assert(neighbours(Cities::Jakarta)[3] == Cities::Sydney);
            assert(neighbours(Cities::LosAngeles)[3] == Cities::Sydney);
            assert(neighbours(Cities::Manila)[3] == Cities::Sydney);
        },
        Cities::Taipei => {
            assert(neighbours(Cities::HongKong)[5] == Cities::Taipei);
            assert(neighbours(Cities::Manila)[4] == Cities::Taipei);
            assert(neighbours(Cities::Osaka)[0] == Cities::Taipei);
            assert(neighbours(Cities::Shanghai)[3] == Cities::Taipei);
        },
        Cities::Tehran => {
            assert(neighbours(Cities::Baghdad)[4] == Cities::Tehran);
            assert(neighbours(Cities::Delhi)[4] == Cities::Tehran);
            assert(neighbours(Cities::Karachi)[4] == Cities::Tehran);
            assert(neighbours(Cities::Moscow)[2] == Cities::Tehran);
        },
        Cities::Tokyo => {
            assert(neighbours(Cities::Osaka)[1] == Cities::Tokyo);
            assert(neighbours(Cities::SanFrancisco)[3] == Cities::Tokyo);
            assert(neighbours(Cities::Seoul)[2] == Cities::Tokyo);
            assert(neighbours(Cities::Shanghai)[4] == Cities::Tokyo);
        },
        Cities::Washington => {
            assert(neighbours(Cities::Atlanta)[2] == Cities::Washington);
            assert(neighbours(Cities::Miami)[3] == Cities::Washington);
            assert(neighbours(Cities::Montreal)[2] == Cities::Washington);
            assert(neighbours(Cities::NewYork)[3] == Cities::Washington);
        },
    }
}

/// All the cities, in alphabetical order.
pub open spec fn every_city() -> Seq<Cities> {
    Seq::new(CITY_COUNT as nat, |i: int| Cities::at(i))
}

/// All the cities, in alphabetical order.
pub fn list_cities() -> (cities: Vec<Cities>)
    ensures
        cities@ == every_city(),
{
    let mut cities: Vec<Cities> = Vec::new();
    let mut i: usize = 0;
    while i < CITY_COUNT
        invariant
            i <= CITY_COUNT,
            cities.len() == i,
            forall|k: int| 0 <= k < i ==> cities[k] == Cities::at(k),
        decreases CITY_COUNT - i,
    {
        match Cities::from_index(i) {
            Some(city) => cities.push(city),
            None => {},
        }
        i += 1;
    }
    assert(cities@ =~= every_city());
    cities
}

/// Whether `city` occurs in `cities`.
pub fn contains_city(cities: &Vec<Cities>, city: Cities) -> (found: bool)
    ensures
        found == cities@.contains(city),
{
    let mut i: usize = 0;
    while i < cities.len()
        invariant
            i <= cities.len(),
            forall|k: int| 0 <= k < i ==> cities[k] != city,
        decreases cities.len() - i,
    {
        if cities[i] == city {
            return true;
        }
        i += 1;
    }
    false
}

/// A city's position and the city at a position are inverse to each other.
pub proof fn lemma_slot_inverse(city: Cities)
    ensures
        0 <= city.slot() < CITY_COUNT,
        Cities::at(city.slot()) == city,
{
}

/// A position and the position of the city that stands there are the same.
pub proof fn lemma_at_inverse(i: int)
    requires
        0 <= i < CITY_COUNT,
    ensures
        Cities::at(i).slot() == i,
{
}

} // verus!
