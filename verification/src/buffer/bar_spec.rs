//! Bar types: instrument, aggregation method and price.

use crate::instrument::InstrumentId;
use crate::text;
use crate::text::{
    chars_of, decimal_text, parse_unsigned_text, same_text, split_text, text_of, to_upper,
};
use vstd::prelude::*;

verus! {

/// How a bar is closed.
#[derive(Debug, Clone, Copy, PartialEq, Eq, Hash, Structural)]
pub enum BarAggregation {
    Millisecond,
    Second,
    Minute,
    Hour,
    Day,
    Week,
    Month,
    Year,
    Tick,
    TickImbalance,
    TickRuns,
    Volume,
    VolumeImbalance,
    VolumeRuns,
    Value,
    ValueImbalance,
    ValueRuns,
    Renko,
}

impl BarAggregation {
    /// The unit of a time aggregation in nanoseconds.
    pub open spec fn unit_ns(self) -> Option<u64> {
        match self {
            BarAggregation::Millisecond => Some(1_000_000),
            BarAggregation::Second => Some(1_000_000_000),
            BarAggregation::Minute => Some(60_000_000_000),
            BarAggregation::Hour => Some(3_600_000_000_000),
            BarAggregation::Day => Some(86_400_000_000_000),
            BarAggregation::Week => Some(604_800_000_000_000),
            BarAggregation::Month => Some(2_629_800_000_000_000),
            BarAggregation::Year => Some(31_557_600_000_000_000),
            _ => None,
        }
    }

    /// The name in a bar type's text.
    pub open spec fn spec_name(self) -> Seq<char> {
        match self {
            BarAggregation::Millisecond => "MILLISECOND"@,
            BarAggregation::Second => "SECOND"@,
            BarAggregation::Minute => "MINUTE"@,
            BarAggregation::Hour => "HOUR"@,
            BarAggregation::Day => "DAY"@,
            BarAggregation::Week => "WEEK"@,
            BarAggregation::Month => "MONTH"@,
            BarAggregation::Year => "YEAR"@,
            BarAggregation::Tick => "TICK"@,
            BarAggregation::TickImbalance => "TICKIMBALANCE"@,
            BarAggregation::TickRuns => "TICKRUNS"@,
            BarAggregation::Volume => "VOLUME"@,
            BarAggregation::VolumeImbalance => "VOLUMEIMBALANCE"@,
            BarAggregation::VolumeRuns => "VOLUMERUNS"@,
            BarAggregation::Value => "VALUE"@,
            BarAggregation::ValueImbalance => "VALUEIMBALANCE"@,
            BarAggregation::ValueRuns => "VALUERUNS"@,
            BarAggregation::Renko => "RENKO"@,
        }
    }

    /// The name in a bar type's text.
    pub fn name(&self) -> (r: &'static str)
        ensures
            r@ == self.spec_name(),
    {
        match self {
            BarAggregation::Millisecond => "MILLISECOND",
            BarAggregation::Second => "SECOND",
            BarAggregation::Minute => "MINUTE",
            BarAggregation::Hour => "HOUR",
            BarAggregation::Day => "DAY",
            BarAggregation::Week => "WEEK",
            BarAggregation::Month => "MONTH",
            BarAggregation::Year => "YEAR",
            BarAggregation::Tick => "TICK",
            BarAggregation::TickImbalance => "TICKIMBALANCE",
            BarAggregation::TickRuns => "TICKRUNS",
            BarAggregation::Volume => "VOLUME",
            BarAggregation::VolumeImbalance => "VOLUMEIMBALANCE",
            BarAggregation::VolumeRuns => "VOLUMERUNS",
            BarAggregation::Value => "VALUE",
            BarAggregation::ValueImbalance => "VALUEIMBALANCE",
            BarAggregation::ValueRuns => "VALUERUNS",
            BarAggregation::Renko => "RENKO",
        }
    }

    /// Whether bars are closed by time.
    pub fn is_time_aggregated(&self) -> (r: bool)
        ensures
            r == self.unit_ns() is Some,
    {
        match self {
            BarAggregation::Millisecond
            | BarAggregation::Second
            | BarAggregation::Minute
            | BarAggregation::Hour
            | BarAggregation::Day
            | BarAggregation::Week
            | BarAggregation::Month
            | BarAggregation::Year => true,
            _ => false,
        }
    }

    /// The aggregation with a name in capitals.
    pub fn from_name(name: &str) -> (r: Option<Self>)
        ensures
            match r {
                Some(a) => a.spec_name() == name@,
                None => forall|a: BarAggregation| #[trigger] a.spec_name() != name@,
            },
    {
        if same_text(name, "MILLISECOND") {
            Some(BarAggregation::Millisecond)
        } else if same_text(name, "SECOND") {
            Some(BarAggregation::Second)
        } else if same_text(name, "MINUTE") {
            Some(BarAggregation::Minute)
        } else if same_text(name, "HOUR") {
            Some(BarAggregation::Hour)
        } else if same_text(name, "DAY") {
            Some(BarAggregation::Day)
        } else if same_text(name, "WEEK") {
            Some(BarAggregation::Week)
        } else if same_text(name, "MONTH") {
            Some(BarAggregation::Month)
        } else if same_text(name, "YEAR") {
            Some(BarAggregation::Year)
        } else if same_text(name, "TICK") {
            Some(BarAggregation::Tick)
        } else if same_text(name, "TICKIMBALANCE") {
            Some(BarAggregation::TickImbalance)
        } else if same_text(name, "TICKRUNS") {
            Some(BarAggregation::TickRuns)
        } else if same_text(name, "VOLUME") {
            Some(BarAggregation::Volume)
        } else if same_text(name, "VOLUMEIMBALANCE") {
            Some(BarAggregation::VolumeImbalance)
        } else if same_text(name, "VOLUMERUNS") {
            Some(BarAggregation::VolumeRuns)
        } else if same_text(name, "VALUE") {
            Some(BarAggregation::Value)
        } else if same_text(name, "VALUEIMBALANCE") {
            Some(BarAggregation::ValueImbalance)
        } else if same_text(name, "VALUERUNS") {
            Some(BarAggregation::ValueRuns)
        } else if same_text(name, "RENKO") {
            Some(BarAggregation::Renko)
        } else {
            None
        }
    }
}

/// Which price a bar is made of.
#[derive(Debug, Clone, Copy, PartialEq, Eq, Hash, Structural)]
pub enum PriceType {
    Last,
    Bid,
    Ask,
    Mid,
}

impl PriceType {
    /// The name in a bar type's text.
    pub open spec fn spec_name(self) -> Seq<char> {
        match self {
            PriceType::Last => "LAST"@,
            PriceType::Bid => "BID"@,
            PriceType::Ask => "ASK"@,
            PriceType::Mid => "MID"@,
        }
    }

    /// The name in a bar type's text.
    pub fn name(&self) -> (r: &'static str)
        ensures
            r@ == self.spec_name(),
    {
        match self {
            PriceType::Last => "LAST",
            PriceType::Bid => "BID",
            PriceType::Ask => "ASK",
            PriceType::Mid => "MID",
        }
    }

    /// The price type with a name in capitals.
    pub fn from_name(name: &str) -> (r: Option<Self>)
        ensures
            match r {
                Some(p) => p.spec_name() == name@,
                None => forall|p: PriceType| #[trigger] p.spec_name() != name@,
            },
    {
        if same_text(name, "LAST") {
            Some(PriceType::Last)
        } else if same_text(name, "BID") {
            Some(PriceType::Bid)
        } else if same_text(name, "ASK") {
            Some(PriceType::Ask)
        } else if same_text(name, "MID") {
            Some(PriceType::Mid)
        } else {
            None
        }
    }
}

/// Whether bars are made from ticks here or received.
#[derive(Debug, Clone, Copy, PartialEq, Eq, Hash, Structural)]
pub enum AggregationSource {
    Internal,
    External,
}

/// Step, aggregation method and price of a bar.
#[derive(Debug, Clone, Copy, PartialEq, Eq, Hash, Structural)]
pub struct BarSpecification {
    pub step: u32,
    pub aggregation: BarAggregation,
    pub price_type: PriceType,
}

impl BarSpecification {
    /// The specification with these parts.
    pub fn new(step: u32, aggregation: BarAggregation, price_type: PriceType) -> (r: Self)
        ensures
            r == (BarSpecification { step, aggregation, price_type }),
    {
        BarSpecification { step, aggregation, price_type }
    }

    /// Bars of the last price over time.
    pub fn time(step: u32, aggregation: BarAggregation) -> (r: Self)
        ensures
            r == (BarSpecification { step, aggregation, price_type: PriceType::Last }),
    {
        BarSpecification::new(step, aggregation, PriceType::Last)
    }

    /// Bars of a number of ticks.
    pub fn tick(step: u32) -> (r: Self)
        ensures
            r == (BarSpecification {
                step,
                aggregation: BarAggregation::Tick,
                price_type: PriceType::Last,
            }),
    {
        BarSpecification::new(step, BarAggregation::Tick, PriceType::Last)
    }

    /// Bars of a volume.
    pub fn volume(step: u32) -> (r: Self)
        ensures
            r == (BarSpecification {
                step,
                aggregation: BarAggregation::Volume,
                price_type: PriceType::Last,
            }),
    {
        BarSpecification::new(step, BarAggregation::Volume, PriceType::Last)
    }

    /// Bars of a notional value in quote currency; the step is kept modulo 2^32.
    pub fn value(step: u64) -> (r: Self)
        ensures
            r == (BarSpecification {
                step: (step % 0x1_0000_0000) as u32,
                aggregation: BarAggregation::Value,
                price_type: PriceType::Last,
            }),
    {
        BarSpecification::new((step % 0x1_0000_0000) as u32, BarAggregation::Value, PriceType::Last)
    }

    /// Whether bars are closed by time.
    pub fn is_time_aggregated(&self) -> (r: bool)
        ensures
            r == self.aggregation.unit_ns() is Some,
    {
        self.aggregation.is_time_aggregated()
    }

    /// Whether bars are closed by a threshold.
    pub fn is_threshold_aggregated(&self) -> (r: bool)
        ensures
            r == self.aggregation.unit_ns() is None,
    {
        !self.is_time_aggregated()
    }

    /// The length of a time bar is within `u64`.
    pub open spec fn interval_fits(self) -> bool {
        self.aggregation.unit_ns() matches Some(u) ==> self.step * u <= u64::MAX
    }

    /// The length of a time bar in nanoseconds; none for a threshold.
    pub open spec fn interval_ns(self) -> Option<u64> {
        match self.aggregation.unit_ns() {
            Some(u) => Some((self.step * u) as u64),
            None => None,
        }
    }

    /// Whether the length of a time bar is within `u64`.
    pub fn interval_in_range(&self) -> (r: bool)
        ensures
            r == self.interval_fits(),
    {
        match self.unit() {
            Some(u) => self.step as u128 * u as u128 <= 0xffff_ffff_ffff_ffff,
            None => true,
        }
    }

    fn unit(&self) -> (r: Option<u64>)
        ensures
            r == self.aggregation.unit_ns(),
            r matches Some(u) ==> u <= 31_557_600_000_000_000,
    {
        match self.aggregation {
            BarAggregation::Millisecond => Some(1_000_000),
            BarAggregation::Second => Some(1_000_000_000),
            BarAggregation::Minute => Some(60_000_000_000),
            BarAggregation::Hour => Some(3_600_000_000_000),
            BarAggregation::Day => Some(86_400_000_000_000),
            BarAggregation::Week => Some(604_800_000_000_000),
            BarAggregation::Month => Some(2_629_800_000_000_000),
            BarAggregation::Year => Some(31_557_600_000_000_000),
            _ => None,
        }
    }

    /// The length of a time bar in nanoseconds; none for a threshold.
    pub fn get_interval_ns(&self) -> (r: Option<u64>)
        requires
            self.interval_fits(),
        ensures
            r == self.interval_ns(),
    {
        match self.unit() {
            Some(u) => Some(self.step as u64 * u),
            None => None,
        }
    }
}

/// Why a text is no bar type.
#[derive(Debug, PartialEq, Eq)]
pub struct ParseBarTypeError(String);

impl View for ParseBarTypeError {
    type V = Seq<char>;

    closed spec fn view(&self) -> Seq<char> {
        self.0@
    }
}

impl ParseBarTypeError {
    /// The message of the error.
    pub fn message(&self) -> (s: String)
        ensures
            s@ == "ParseBarTypeError: "@ + self@,
    {
        "ParseBarTypeError: ".to_owned().concat(self.0.as_str())
    }
}

/// An instrument with a bar specification.
#[derive(Debug, PartialEq, Eq, Hash)]
pub struct BarType {
    pub symbol: String,
    pub venue: String,
    pub spec: BarSpecification,
    pub aggregation_source: AggregationSource,
}

impl Clone for BarType {
    fn clone(&self) -> (r: Self)
        ensures
            r == *self,
    {
        BarType {
            symbol: self.symbol.clone(),
            venue: self.venue.clone(),
            spec: self.spec,
            aggregation_source: self.aggregation_source,
        }
    }
}

/// What a bar type's text says.
pub struct BarTypeText {
    pub symbol: Seq<char>,
    pub venue: Seq<char>,
    pub spec: BarSpecification,
}

/// The text `SYMBOL.VENUE-STEP-AGGREGATION-PRICE`.
pub open spec fn bar_type_text(t: BarTypeText) -> Seq<char> {
    t.symbol + seq!['.'] + t.venue + seq!['-'] + text::decimal(t.spec.step as nat) + seq!['-']
        + t.spec.aggregation.spec_name() + seq!['-'] + t.spec.price_type.spec_name()
}

/// The parts of the text between dashes.
pub open spec fn bar_parts(s: Seq<char>) -> Seq<Seq<char>> {
    text::split(s, '-')
}

/// The text is of the short form `SYMBOL.VENUE-INTERVAL-BETWEEN`.
pub open spec fn is_short_form(parts: Seq<Seq<char>>) -> bool {
    parts.len() == 3 && text::upper(parts[2]) == "BETWEEN"@
}

/// The aggregation by time that the letter behind an interval stands for.
pub open spec fn letter_unit(c: char) -> Option<BarAggregation> {
    if c == 's' {
        Some(BarAggregation::Second)
    } else if c == 'm' {
        Some(BarAggregation::Minute)
    } else if c == 'h' {
        Some(BarAggregation::Hour)
    } else if c == 'd' {
        Some(BarAggregation::Day)
    } else if c == 'w' {
        Some(BarAggregation::Week)
    } else {
        None
    }
}

/// The step and the aggregation that an interval such as `1m` stands for.
pub open spec fn short_interval(s: Seq<char>) -> Option<(nat, BarAggregation)> {
    if s.len() == 0 || letter_unit(s.last()) is None {
        None
    } else {
        match text::parse_unsigned(s.drop_last(), u32::MAX as nat) {
            Some(step) => Some((step, letter_unit(s.last())->0)),
            None => None,
        }
    }
}

/// Reads an interval such as `1m`.
fn read_interval(s: &str) -> (r: Option<(u32, BarAggregation)>)
    ensures
        match r {
            Some((step, a)) => short_interval(s@) == Some((step as nat, a)),
            None => short_interval(s@) is None,
        },
{
    let v = chars_of(s);
    let n: usize = v.len();
    if n == 0 {
        return None;
    }
    let unit = match v[n - 1] {
        's' => Some(BarAggregation::Second),
        'm' => Some(BarAggregation::Minute),
        'h' => Some(BarAggregation::Hour),
        'd' => Some(BarAggregation::Day),
        'w' => Some(BarAggregation::Week),
        _ => None,
    };
    let front = text_of(&v, 0, n - 1);
    assert(front@ =~= s@.drop_last());
    match unit {
        Some(a) => match parse_unsigned_text(front.as_str(), 0xffff_ffff) {
            Some(step) => Some((step as u32, a)),
            None => None,
        },
        None => None,
    }
}

/// Why a text is no bar type.
pub open spec fn bar_type_fault(s: Seq<char>) -> Option<Seq<char>> {
    let parts = bar_parts(s);
    if parts.len() < 3 {
        Some("BarType string '"@ + s + "' must have at least 3 dash-separated parts"@)
    } else if text::split(parts[0], '.').len() != 2 {
        Some("BarType string '"@ + s + "' must have SYMBOL.VENUE format"@)
    } else if is_short_form(parts) {
        if short_interval(parts[1]) is None {
            Some("Invalid step '"@ + parts[1] + "' in BarType '"@ + s + "'"@)
        } else {
            None
        }
    } else if text::parse_unsigned(parts[1], u32::MAX as nat) is None {
        Some("Invalid step '"@ + parts[1] + "' in BarType '"@ + s + "'"@)
    } else if forall|a: BarAggregation| #[trigger] a.spec_name() != text::upper(parts[2]) {
        Some("Unknown aggregation '"@ + parts[2] + "' in BarType '"@ + s + "'"@)
    } else if parts.len() >= 4 && forall|p: PriceType| #[trigger]
        p.spec_name() != text::upper(parts[3]) {
        Some("Unknown price_type '"@ + parts[3] + "' in BarType '"@ + s + "'"@)
    } else {
        None
    }
}

/// The text says this: the parts are the ones between dashes, in any case, and the last price
/// where no price is named. In the short form, the interval gives the step and the aggregation.
pub open spec fn bar_type_says(s: Seq<char>, t: BarTypeText) -> bool {
    let parts = bar_parts(s);
    &&& t.symbol == text::split(parts[0], '.')[0]
    &&& t.venue == text::split(parts[0], '.')[1]
    &&& if is_short_form(parts) {
        short_interval(parts[1]) == Some((t.spec.step as nat, t.spec.aggregation))
    } else {
        &&& text::parse_unsigned(parts[1], u32::MAX as nat) == Some(t.spec.step as nat)
        &&& t.spec.aggregation.spec_name() == text::upper(parts[2])
    }
    &&& if parts.len() >= 4 {
        t.spec.price_type.spec_name() == text::upper(parts[3])
    } else {
        t.spec.price_type == PriceType::Last
    }
}

fn quoted(a: &str, b: &str, c: &str) -> (r: String)
    ensures
        r@ == a@ + b@ + c@,
{
    a.to_owned().concat(b).concat(c)
}

impl BarType {
    /// What the text of the bar type says.
    pub open spec fn said(self) -> BarTypeText {
        BarTypeText { symbol: self.symbol@, venue: self.venue@, spec: self.spec }
    }

    /// The bar type with these parts.
    pub fn new(
        symbol: &str,
        venue: &str,
        spec: BarSpecification,
        source: AggregationSource,
    ) -> (r: Self)
        ensures
            r.symbol@ == symbol@,
            r.venue@ == venue@,
            r.spec == spec,
            r.aggregation_source == source,
    {
        BarType {
            symbol: symbol.to_owned(),
            venue: venue.to_owned(),
            spec,
            aggregation_source: source,
        }
    }

    /// Reads `SYMBOL.VENUE-STEP-AGGREGATION` or `SYMBOL.VENUE-STEP-AGGREGATION-PRICE`, such as
    /// `BTCUSDT.BINANCE-100-TICK-LAST`, or for bars by time the short form, such as
    /// `BTCUSDT.BINANCE-1m-BETWEEN`.
    pub fn parse_bar_type(s: &str) -> (r: Result<Self, ParseBarTypeError>)
        ensures
            match r {
                Ok(b) => bar_type_fault(s@) is None && bar_type_says(s@, b.said())
                    && b.aggregation_source == AggregationSource::Internal,
                Err(e) => bar_type_fault(s@) == Some(e@),
            },
    {
        let parts = split_text(s, '-');
        let ghost p = bar_parts(s@);
        assert(text::texts(parts@).len() == parts@.len());
        assert forall|i: int| 0 <= i < parts@.len() implies p[i] == (#[trigger] parts@[i])@ by {
            assert(text::texts(parts@)[i] == parts@[i]@);
        }
        if parts.len() < 3 {
            return Err(
                ParseBarTypeError(
                    quoted("BarType string '", s, "' must have at least 3 dash-separated parts"),
                ),
            );
        }
        let names = split_text(parts[0].as_str(), '.');
        assert(text::texts(names@).len() == names@.len());
        if names.len() != 2 {
            return Err(
                ParseBarTypeError(quoted("BarType string '", s, "' must have SYMBOL.VENUE format")),
            );
        }
        assert(text::texts(names@)[0] == names@[0]@);
        assert(text::texts(names@)[1] == names@[1]@);
        if parts.len() == 3 && same_text(to_upper(parts[2].as_str()).as_str(), "BETWEEN") {
            return match read_interval(parts[1].as_str()) {
                Some((step, aggregation)) => Ok(
                    BarType::new(
                        names[0].as_str(),
                        names[1].as_str(),
                        BarSpecification::new(step, aggregation, PriceType::Last),
                        AggregationSource::Internal,
                    ),
                ),
                None => Err(
                    ParseBarTypeError(
                        quoted("Invalid step '", parts[1].as_str(), "' in BarType '").concat(
                            s,
                        ).concat("'"),
                    ),
                ),
            };
        }
        let step: u32 = match parse_unsigned_text(parts[1].as_str(), 0xffff_ffff) {
            Some(n) => n as u32,
            None => {
                return Err(
                    ParseBarTypeError(
                        quoted("Invalid step '", parts[1].as_str(), "' in BarType '").concat(
                            s,
                        ).concat("'"),
                    ),
                );
            },
        };
        let aggregation = match BarAggregation::from_name(to_upper(parts[2].as_str()).as_str()) {
            Some(a) => a,
            None => {
                return Err(
                    ParseBarTypeError(
                        quoted("Unknown aggregation '", parts[2].as_str(), "' in BarType '").concat(
                            s,
                        ).concat("'"),
                    ),
                );
            },
        };
        let price_type = if parts.len() >= 4 {
            match PriceType::from_name(to_upper(parts[3].as_str()).as_str()) {
                Some(p) => p,
                None => {
                    return Err(
                        ParseBarTypeError(
                            quoted(
                                "Unknown price_type '",
                                parts[3].as_str(),
                                "' in BarType '",
                            ).concat(s).concat("'"),
                        ),
                    );
                },
            }
        } else {
            PriceType::Last
        };
        Ok(
            BarType::new(
                names[0].as_str(),
                names[1].as_str(),
                BarSpecification::new(step, aggregation, price_type),
                AggregationSource::Internal,
            ),
        )
    }

    /// The text `SYMBOL.VENUE-STEP-AGGREGATION-PRICE`.
    pub fn as_str(&self) -> (s: String)
        ensures
            s@ == bar_type_text(self.said()),
    {
        let mut s: String = self.symbol.clone();
        s.push('.');
        s.append(self.venue.as_str());
        s.push('-');
        s.append(decimal_text(self.spec.step as u64).as_str());
        s.push('-');
        s.append(self.spec.aggregation.name());
        s.push('-');
        s.append(self.spec.price_type.name());
        assert(s@ =~= bar_type_text(self.said()));
        s
    }

    /// The instrument.
    pub fn instrument_id(&self) -> (r: InstrumentId)
        ensures
            r.wf(),
            r@ == (self.symbol@, self.venue@),
    {
        InstrumentId::new(self.symbol.as_str(), self.venue.as_str())
    }

    /// The bar specification.
    pub fn spec(&self) -> (r: &BarSpecification)
        ensures
            *r == self.spec,
    {
        &self.spec
    }
}

/// Names of aggregations and prices are capitals.
proof fn lemma_names_are_capitals(a: BarAggregation, p: PriceType)
    ensures
        text::upper(a.spec_name()) == a.spec_name(),
        text::lacks(a.spec_name(), '-'),
        text::upper(p.spec_name()) == p.spec_name(),
        text::lacks(p.spec_name(), '-'),
{
    reveal_strlit("MILLISECOND");
    reveal_strlit("SECOND");
    reveal_strlit("MINUTE");
    reveal_strlit("HOUR");
    reveal_strlit("DAY");
    reveal_strlit("WEEK");
    reveal_strlit("MONTH");
    reveal_strlit("YEAR");
    reveal_strlit("TICK");
    reveal_strlit("TICKIMBALANCE");
    reveal_strlit("TICKRUNS");
    reveal_strlit("VOLUME");
    reveal_strlit("VOLUMEIMBALANCE");
    reveal_strlit("VOLUMERUNS");
    reveal_strlit("VALUE");
    reveal_strlit("VALUEIMBALANCE");
    reveal_strlit("VALUERUNS");
    reveal_strlit("RENKO");
    reveal_strlit("LAST");
    reveal_strlit("BID");
    reveal_strlit("ASK");
    reveal_strlit("MID");
    assert(text::ascii_upper_text(a.spec_name()) =~= a.spec_name());
    assert(text::ascii_upper_text(p.spec_name()) =~= p.spec_name());
}

/// No two aggregations have one name.
pub proof fn aggregation_names_differ(a: BarAggregation, b: BarAggregation)
    requires
        a.spec_name() == b.spec_name(),
    ensures
        a == b,
{
    reveal_strlit("MILLISECOND");
    reveal_strlit("SECOND");
    reveal_strlit("MINUTE");
    reveal_strlit("HOUR");
    reveal_strlit("DAY");
    reveal_strlit("WEEK");
    reveal_strlit("MONTH");
    reveal_strlit("YEAR");
    reveal_strlit("TICK");
    reveal_strlit("TICKIMBALANCE");
    reveal_strlit("TICKRUNS");
    reveal_strlit("VOLUME");
    reveal_strlit("VOLUMEIMBALANCE");
    reveal_strlit("VOLUMERUNS");
    reveal_strlit("VALUE");
    reveal_strlit("VALUEIMBALANCE");
    reveal_strlit("VALUERUNS");
    reveal_strlit("RENKO");
    let x = a.spec_name();
    let y = b.spec_name();
    assert(x.len() == y.len());
    assert(x[0] == y[0]);
    assert(x[1] == y[1]);
    assert(x[2] == y[2]);
    assert(x.len() > 5 ==> x[5] == y[5]);
}

/// No two price types have one name.
pub proof fn price_names_differ(a: PriceType, b: PriceType)
    requires
        a.spec_name() == b.spec_name(),
    ensures
        a == b,
{
    reveal_strlit("LAST");
    reveal_strlit("BID");
    reveal_strlit("ASK");
    reveal_strlit("MID");
    let x = a.spec_name();
    let y = b.spec_name();
    assert("LAST"@.len() == 4 && "BID"@.len() == 3 && "ASK"@.len() == 3 && "MID"@.len() == 3);
    assert("BID"@[0] == 'B' && "ASK"@[0] == 'A' && "MID"@[0] == 'M');
    assert(x.len() == y.len());
    assert(x[0] == y[0]);
}

/// A bar type's text reads back as the bar type, where neither symbol nor venue holds a dot or a
/// dash.
pub proof fn bar_type_reads_back(t: BarTypeText, u: BarTypeText)
    requires
        text::lacks(t.symbol, '.'),
        text::lacks(t.symbol, '-'),
        text::lacks(t.venue, '.'),
        text::lacks(t.venue, '-'),
    ensures
        bar_type_fault(bar_type_text(t)) is None,
        bar_type_says(bar_type_text(t), t),
        bar_type_says(bar_type_text(t), u) ==> u == t,
{
    let name = t.symbol + seq!['.'] + t.venue;
    let step = text::decimal(t.spec.step as nat);
    let agg = t.spec.aggregation.spec_name();
    let price = t.spec.price_type.spec_name();
    let s = bar_type_text(t);
    lemma_names_are_capitals(t.spec.aggregation, t.spec.price_type);
    text::decimal_lacks(t.spec.step as nat, '-');
    text::decimal_reads_back(t.spec.step as nat, u32::MAX as nat);
    assert(text::lacks(name, '-'));
    let tail2 = agg + seq!['-'] + price;
    let tail1 = step + seq!['-'] + tail2;
    assert(s =~= name + seq!['-'] + tail1);
    text::split_takes_piece_off(name, '-', tail1);
    text::split_takes_piece_off(step, '-', tail2);
    text::split_takes_piece_off(agg, '-', price);
    text::split_of_one_piece(price, '-');
    text::split_takes_piece_off(t.symbol, '.', t.venue);
    text::split_of_one_piece(t.venue, '.');
    let parts = bar_parts(s);
    assert(parts =~= seq![name, step, agg, price]);
    assert(text::split(name, '.') =~= seq![t.symbol, t.venue]);
    if bar_type_says(s, u) {
        aggregation_names_differ(u.spec.aggregation, t.spec.aggregation);
        price_names_differ(u.spec.price_type, t.spec.price_type);
    }
}

/// Units of time are as long as they say: a second of a thousand milliseconds, a minute of sixty, an
/// hour of sixty and a day of twenty-four, a week of seven; a year is 365 days and a quarter, and a month
/// a twelfth of it. Other ways of aggregation have no unit.
pub proof fn units_are_as_long_as_they_say(a: BarAggregation)
    ensures
        BarAggregation::Millisecond.unit_ns() == Some(1_000_000u64),
        BarAggregation::Second.unit_ns()->0 == 1000 * BarAggregation::Millisecond.unit_ns()->0,
        BarAggregation::Minute.unit_ns()->0 == 60 * BarAggregation::Second.unit_ns()->0,
        BarAggregation::Hour.unit_ns()->0 == 60 * BarAggregation::Minute.unit_ns()->0,
        BarAggregation::Day.unit_ns()->0 == 24 * BarAggregation::Hour.unit_ns()->0,
        BarAggregation::Week.unit_ns()->0 == 7 * BarAggregation::Day.unit_ns()->0,
        4 * BarAggregation::Year.unit_ns()->0 == (4 * 365 + 1) * BarAggregation::Day.unit_ns()->0,
        12 * BarAggregation::Month.unit_ns()->0 == BarAggregation::Year.unit_ns()->0,
        a.unit_ns() is Some <==> a is Millisecond || a is Second || a is Minute || a is Hour || a
            is Day || a is Week || a is Month || a is Year,
{
}

/// A bar of time is as long as its step says, in its unit.
pub proof fn interval_is_the_step_in_units(s: BarSpecification)
    requires
        s.interval_fits(),
    ensures
        s.aggregation.unit_ns() matches Some(u) ==> s.interval_ns() matches Some(ns) && ns == s.step
            * u,
        s.aggregation.unit_ns() is None ==> s.interval_ns() is None,
{
}

/// The short form of an interval is a number and the letter of a unit: seconds, minutes, hours, days or
/// weeks.
pub proof fn short_interval_reads_back(n: nat)
    requires
        n <= u32::MAX,
    ensures
        short_interval(text::decimal(n).push('s')) == Some((n, BarAggregation::Second)),
        short_interval(text::decimal(n).push('m')) == Some((n, BarAggregation::Minute)),
        short_interval(text::decimal(n).push('h')) == Some((n, BarAggregation::Hour)),
        short_interval(text::decimal(n).push('d')) == Some((n, BarAggregation::Day)),
        short_interval(text::decimal(n).push('w')) == Some((n, BarAggregation::Week)),
        short_interval(text::decimal(n).push('x')) is None,
{
    text::decimal_reads_back(n, u32::MAX as nat);
    let d = text::decimal(n);
    assert(d.push('s').drop_last() =~= d);
    assert(d.push('m').drop_last() =~= d);
    assert(d.push('h').drop_last() =~= d);
    assert(d.push('d').drop_last() =~= d);
    assert(d.push('w').drop_last() =~= d);
}

} // verus!
