use vstd::prelude::*;

verus! {

/// A day of the week, Monday first.
#[derive(Debug, Clone, Copy, PartialEq, Eq, Structural, PartialOrd, Ord, Hash)]
pub enum WeekDay {
    Mon,
    Tue,
    Wed,
    Thu,
    Fri,
    Sat,
    Sun,
}

/// The number of a day: Monday is 0, Sunday is 6.
pub open spec fn day_number(day: WeekDay) -> int {
    match day {
        WeekDay::Mon => 0,
        WeekDay::Tue => 1,
        WeekDay::Wed => 2,
        WeekDay::Thu => 3,
        WeekDay::Fri => 4,
        WeekDay::Sat => 5,
        WeekDay::Sun => 6,
    }
}

/// The three-letter upper-case code under which a day is stored.
pub open spec fn day_code(day: WeekDay) -> Seq<char> {
    match day {
        WeekDay::Mon => seq!['M', 'O', 'N'],
        WeekDay::Tue => seq!['T', 'U', 'E'],
        WeekDay::Wed => seq!['W', 'E', 'D'],
        WeekDay::Thu => seq!['T', 'H', 'U'],
        WeekDay::Fri => seq!['F', 'R', 'I'],
        WeekDay::Sat => seq!['S', 'A', 'T'],
        WeekDay::Sun => seq!['S', 'U', 'N'],
    }
}

/// The day whose code is `code`, if there is one.
pub open spec fn day_from_code(code: Seq<char>) -> Option<WeekDay> {
    if code == day_code(WeekDay::Mon) {
        Some(WeekDay::Mon)
    } else if code == day_code(WeekDay::Tue) {
        Some(WeekDay::Tue)
    } else if code == day_code(WeekDay::Wed) {
        Some(WeekDay::Wed)
    } else if code == day_code(WeekDay::Thu) {
        Some(WeekDay::Thu)
    } else if code == day_code(WeekDay::Fri) {
        Some(WeekDay::Fri)
    } else if code == day_code(WeekDay::Sat) {
        Some(WeekDay::Sat)
    } else if code == day_code(WeekDay::Sun) {
        Some(WeekDay::Sun)
    } else {
        None
    }
}

/// Reading back the code of a day gives that day, and a code that is read
/// as a day is that day's code.
pub proof fn week_day_code_round_trip(day: WeekDay, code: Seq<char>)
    ensures
        day_from_code(day_code(day)) == Some(day),
        day_from_code(code) == Some(day) ==> day_code(day) == code,
{
    assert(day_code(WeekDay::Mon) != day_code(WeekDay::Tue));
    assert(day_code(WeekDay::Mon)[0] == 'M');
    assert(day_code(WeekDay::Tue)[0] == 'T');
    assert(day_code(WeekDay::Wed)[0] == 'W');
    assert(day_code(WeekDay::Thu)[1] == 'H');
    assert(day_code(WeekDay::Tue)[1] == 'U');
    assert(day_code(WeekDay::Fri)[0] == 'F');
    assert(day_code(WeekDay::Sat)[1] == 'A');
    assert(day_code(WeekDay::Sun)[1] == 'U');
}

/// Distinct days have distinct numbers, each below 7.
pub proof fn week_day_number_injective(a: WeekDay, b: WeekDay)
    ensures
        0 <= day_number(a) < 7,
        day_number(a) == day_number(b) <==> a == b,
{
}

impl Default for WeekDay {
    fn default() -> (day: WeekDay)
        ensures
            day == WeekDay::Mon,
    {
        WeekDay::Mon
    }
}

impl WeekDay {
    /// The day's number, Monday being 0.
    pub fn as_num(&self) -> (n: u8)
        ensures
            n == day_number(*self),
    {
        match self {
            WeekDay::Mon => 0,
            WeekDay::Tue => 1,
            WeekDay::Wed => 2,
            WeekDay::Thu => 3,
            WeekDay::Fri => 4,
            WeekDay::Sat => 5,
            WeekDay::Sun => 6,
        }
    }

    /// The day's code: "MON", "TUE", ..., "SUN".
    pub fn to_string(self) -> (code: String)
        ensures
            code@ == day_code(self),
    {
        match self {
            WeekDay::Mon => {
                proof { reveal_strlit("MON"); }
                String::from_str("MON")
            },
            WeekDay::Tue => {
                proof { reveal_strlit("TUE"); }
                String::from_str("TUE")
            },
            WeekDay::Wed => {
                proof { reveal_strlit("WED"); }
                String::from_str("WED")
            },
            WeekDay::Thu => {
                proof { reveal_strlit("THU"); }
                String::from_str("THU")
            },
            WeekDay::Fri => {
                proof { reveal_strlit("FRI"); }
                String::from_str("FRI")
            },
            WeekDay::Sat => {
                proof { reveal_strlit("SAT"); }
                String::from_str("SAT")
            },
            WeekDay::Sun => {
                proof { reveal_strlit("SUN"); }
                String::from_str("SUN")
            },
        }
    }

    /// Reads a day from its code; any other text is refused.
    pub fn try_from(value: String) -> (day: Result<WeekDay, ()>)
        ensures
            day == (match day_from_code(value@) {
                Some(d) => Ok::<WeekDay, ()>(d),
                None => Err(()),
            }),
    {
        let days = [
            WeekDay::Mon,
            WeekDay::Tue,
            WeekDay::Wed,
            WeekDay::Thu,
            WeekDay::Fri,
            WeekDay::Sat,
            WeekDay::Sun,
        ];
        let mut i: usize = 0;
        while i < 7
            invariant
                0 <= i <= 7,
                days@ == seq![
                    WeekDay::Mon,
                    WeekDay::Tue,
                    WeekDay::Wed,
                    WeekDay::Thu,
                    WeekDay::Fri,
                    WeekDay::Sat,
                    WeekDay::Sun,
                ],
                forall|j: int| 0 <= j < i ==> day_code(#[trigger] days@[j]) != value@,
            decreases 7 - i,
        {
            let code = days[i].to_string();
            if code == value {
                return Ok(days[i]);
            }
            i = i + 1;
        }
        assert(day_from_code(value@) is None) by {
            assert(day_code(days@[0]) != value@);
            assert(day_code(days@[1]) != value@);
            assert(day_code(days@[2]) != value@);
            assert(day_code(days@[3]) != value@);
            assert(day_code(days@[4]) != value@);
            assert(day_code(days@[5]) != value@);
            assert(day_code(days@[6]) != value@);
        }
        Err(())
    }
}

} // verus!
