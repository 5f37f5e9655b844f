//! Teams and the league's squads.
use vstd::prelude::*;
use vstd::string::StringExecFns;
use crate::calendar::{calendar_date, is_valid_ymd, Ymd};

verus! {

/// A team: its name and its squad, in squad order.
pub struct Team<P> {
    pub team_name: String,
    pub players: Vec<P>,
}

impl<P> Team<P> {
    pub fn new(team_name: String, players: Vec<P>) -> (r: Team<P>)
        ensures
            r.team_name == team_name,
            r.players == players,
    {
        Team { team_name, players }
    }

    pub fn team_name(&self) -> (r: &String)
        ensures
            *r == self.team_name,
    {
        &self.team_name
    }

    pub fn players(&self) -> (r: &Vec<P>)
        ensures
            *r == self.players,
    {
        &self.players
    }

    /// Takes the player at `index` out of the squad; the others keep their order.
    pub fn remove_player(&mut self, index: usize) -> (r: P)
        requires
            index < old(self).players@.len(),
        ensures
            r == old(self).players@[index as int],
            final(self).players@ == old(self).players@.remove(index as int),
            final(self).team_name == old(self).team_name,
    {
        self.players.remove(index)
    }

    /// The squad, to be changed in place.
    pub fn players_mut(&mut self) -> (r: &mut Vec<P>)
        ensures
            *r == old(self).players,
            final(self).players == *final(r),
            final(self).team_name == old(self).team_name,
    {
        &mut self.players
    }
}

/// Who a player is: names in Korean, English and Chinese, and birthday.
pub struct RosterEntry {
    pub korean_name: String,
    pub english_name: String,
    pub chinese_name: String,
    pub birth_date: Ymd,
}

fn entry(korean: &str, english: &str, chinese: &str, year: i32, month: u32, day: u32) -> (r:
    RosterEntry)
    requires
        is_valid_ymd(year as int, month as int, day as int),
    ensures
        r.korean_name@ == korean@,
        r.english_name@ == english@,
        r.chinese_name@ == chinese@,
        r.birth_date == (Ymd { year, month, day }),
{
    RosterEntry {
        korean_name: String::from_str(korean),
        english_name: String::from_str(english),
        chinese_name: String::from_str(chinese),
        birth_date: calendar_date(year, month, day).unwrap(),
    }
}

/// Each squad of `init_teams`, player by player: Korean, English and
/// Chinese name, and birthday as year, month and day.
pub open spec fn league_roster() -> Seq<Seq<(Seq<char>, Seq<char>, Seq<char>, i32, u32, u32)>> {
    seq![
        seq![
            ("강동윤"@, "Kang Dongyun"@, "姜东润"@, 1989i32, 1u32, 23u32),
            ("한승주"@, "Han Seungjoo"@, "韩升周"@, 1996i32, 11u32, 27u32),
            ("박민규"@, "Park Minkyu"@, "朴珉奎"@, 1994i32, 6u32, 5u32),
            ("최재영"@, "Choi Jaeyoung"@, "崔宰荣"@, 1997i32, 4u32, 10u32),
            ("이춘규"@, "Lee Chungyu"@, "李春揆"@, 1989i32, 3u32, 27u32),
            ("당이페이"@, "Dang Yifei"@, "党毅飞"@, 1995i32, 6u32, 17u32),
        ],
        seq![
            ("원성진"@, "Weon Seongjin"@, "元晟溱"@, 1985i32, 7u32, 15u32),
            ("한우진"@, "Han Woojin"@, "韩友赈"@, 2005i32, 6u32, 12u32),
            ("송지훈"@, "Song Jihoon"@, "宋知勋"@, 1998i32, 2u32, 23u32),
            ("한태희"@, "Han Taehee"@, "韩态熙"@, 1993i32, 9u32, 17u32),
            ("윤성식"@, "Yun Seongsik"@, "尹圣植"@, 2000i32, 6u32, 25u32),
            ("김승진"@, "Kim Seungjin"@, "金升珍"@, 2006i32, 5u32, 19u32),
        ],
        seq![
            ("신민준"@, "Shin Minjun"@, "申旻埈"@, 1999i32, 1u32, 11u32),
            ("이창석"@, "Lee Changseok"@, "李昌锡"@, 1996i32, 4u32, 27u32),
            ("문민종"@, "Moon Minjong"@, "文敏钟"@, 2003i32, 2u32, 12u32),
            ("한상조"@, "Han Sangcho"@, "韩相朝"@, 1999i32, 9u32, 28u32),
            ("김채영"@, "Kim Chaeyoung"@, "金彩瑛"@, 1996i32, 1u32, 15u32),
            ("랴오위안허"@, "Liao Yuanhe"@, "廖元赫"@, 2000i32, 12u32, 20u32),
        ],
        seq![
            ("박정환"@, "Park Junghwan"@, "朴廷桓"@, 1993i32, 1u32, 11u32),
            ("이지현(남)"@, "Lee Jihyun (m)"@, "李志贤"@, 1992i32, 9u32, 30u32),
            ("박영훈"@, "Park Yeonghun"@, "朴永训"@, 1985i32, 4u32, 1u32),
            ("김진휘"@, "Kim Jinhwi"@, "金真辉"@, 1996i32, 1u32, 26u32),
            ("금지우"@, "Geum Jiwoo"@, "琴沚玗"@, 2001i32, 8u32, 29u32),
            ("구쯔하오"@, "Gu Zihao"@, "辜梓豪"@, 1998i32, 3u32, 13u32),
        ],
    ]
}

/// The four teams of the post-season and their squads of six.
pub fn init_teams() -> (r: Vec<Team<RosterEntry>>)
    ensures
        r@.len() == 4,
        r@[0].team_name@ == "한국물가정보"@,
        r@[1].team_name@ == "수려한합천"@,
        r@[2].team_name@ == "울산 고려아연"@,
        r@[3].team_name@ == "원익"@,
        forall|t: int| 0 <= t < 4 ==> (#[trigger] r@[t]).players@.len() == 6,
        forall|t: int, p: int|
            0 <= t < 4 && 0 <= p < 6 ==> is_valid_ymd(
                (#[trigger] r@[t].players@[p]).birth_date.year as int,
                r@[t].players@[p].birth_date.month as int,
                r@[t].players@[p].birth_date.day as int,
            ),
        forall|t: int, p: int|
            0 <= t < 4 && 0 <= p < 6 ==> {
                let e = #[trigger] league_roster()[t][p];
                let q = r@[t].players@[p];
                &&& q.korean_name@ == e.0
                &&& q.english_name@ == e.1
                &&& q.chinese_name@ == e.2
                &&& q.birth_date == Ymd { year: e.3, month: e.4, day: e.5 }
            },
{
    let mut teams: Vec<Team<RosterEntry>> = Vec::new();
    teams.push(
        Team::new(
            String::from_str("한국물가정보"),
            vec![
                entry("강동윤", "Kang Dongyun", "姜东润", 1989, 1, 23),
                entry("한승주", "Han Seungjoo", "韩升周", 1996, 11, 27),
                entry("박민규", "Park Minkyu", "朴珉奎", 1994, 6, 5),
                entry("최재영", "Choi Jaeyoung", "崔宰荣", 1997, 4, 10),
                entry("이춘규", "Lee Chungyu", "李春揆", 1989, 3, 27),
                entry("당이페이", "Dang Yifei", "党毅飞", 1995, 6, 17),
            ],
        ),
    );
    teams.push(
        Team::new(
            String::from_str("수려한합천"),
            vec![
                entry("원성진", "Weon Seongjin", "元晟溱", 1985, 7, 15),
                entry("한우진", "Han Woojin", "韩友赈", 2005, 6, 12),
                entry("송지훈", "Song Jihoon", "宋知勋", 1998, 2, 23),
                entry("한태희", "Han Taehee", "韩态熙", 1993, 9, 17),
                entry("윤성식", "Yun Seongsik", "尹圣植", 2000, 6, 25),
                entry("김승진", "Kim Seungjin", "金升珍", 2006, 5, 19),
            ],
        ),
    );
    teams.push(
        Team::new(
            String::from_str("울산 고려아연"),
            vec![
                entry("신민준", "Shin Minjun", "申旻埈", 1999, 1, 11),
                entry("이창석", "Lee Changseok", "李昌锡", 1996, 4, 27),
                entry("문민종", "Moon Minjong", "文敏钟", 2003, 2, 12),
                entry("한상조", "Han Sangcho", "韩相朝", 1999, 9, 28),
                entry("김채영", "Kim Chaeyoung", "金彩瑛", 1996, 1, 15),
                entry("랴오위안허", "Liao Yuanhe", "廖元赫", 2000, 12, 20),
            ],
        ),
    );
    teams.push(
        Team::new(
            String::from_str("원익"),
            vec![
                entry("박정환", "Park Junghwan", "朴廷桓", 1993, 1, 11),
                entry("이지현(남)", "Lee Jihyun (m)", "李志贤", 1992, 9, 30),
                entry("박영훈", "Park Yeonghun", "朴永训", 1985, 4, 1),
                entry("김진휘", "Kim Jinhwi", "金真辉", 1996, 1, 26),
                entry("금지우", "Geum Jiwoo", "琴沚玗", 2001, 8, 29),
                entry("구쯔하오", "Gu Zihao", "辜梓豪", 1998, 3, 13),
            ],
        ),
    );
    teams
}

} // verus!
