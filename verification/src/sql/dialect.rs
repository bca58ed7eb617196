//! The SQL dialects: SQL Server and Oracle, each at a version.
use vstd::prelude::*;

use crate::definition::{NullsOrder, OrderDirection};
use crate::expression::{AggregateFunction, LiteralValue, SemanticFunction};
use crate::mapping::{table_view, SpecTable, TableName};
use crate::text::{chars_of, concat, concat3, push_char, signed_decimal_text, decimal_text, text, u64_text, i64_text};

verus! {

#[derive(Debug, Clone, Copy, PartialEq, Eq, Structural)]
pub enum SqlServerVersion {
    V2008,
    V2012,
    V2016,
    V2019,
    V2022,
}

pub open spec fn sql_server_version_name(v: SqlServerVersion) -> Seq<char> {
    match v {
        SqlServerVersion::V2008 => "2008"@,
        SqlServerVersion::V2012 => "2012"@,
        SqlServerVersion::V2016 => "2016"@,
        SqlServerVersion::V2019 => "2019"@,
        SqlServerVersion::V2022 => "2022"@,
    }
}

impl SqlServerVersion {
    pub fn as_str(self) -> (r: &'static str)
        ensures
            r@ == sql_server_version_name(self),
    {
        match self {
            SqlServerVersion::V2008 => "2008",
            SqlServerVersion::V2012 => "2012",
            SqlServerVersion::V2016 => "2016",
            SqlServerVersion::V2019 => "2019",
            SqlServerVersion::V2022 => "2022",
        }
    }
}

impl Default for SqlServerVersion {
    fn default() -> (r: Self)
        ensures
            r == SqlServerVersion::V2012,
    {
        SqlServerVersion::V2012
    }
}

#[derive(Debug, Clone, Copy, PartialEq, Eq, Structural)]
pub enum OracleVersion {
    V11g,
    V12c,
    V19c,
    V21c,
    V23ai,
}

pub open spec fn oracle_version_name(v: OracleVersion) -> Seq<char> {
    match v {
        OracleVersion::V11g => "11g"@,
        OracleVersion::V12c => "12c"@,
        OracleVersion::V19c => "19c"@,
        OracleVersion::V21c => "21c"@,
        OracleVersion::V23ai => "23ai"@,
    }
}

impl OracleVersion {
    pub fn as_str(self) -> (r: &'static str)
        ensures
            r@ == oracle_version_name(self),
    {
        match self {
            OracleVersion::V11g => "11g",
            OracleVersion::V12c => "12c",
            OracleVersion::V19c => "19c",
            OracleVersion::V21c => "21c",
            OracleVersion::V23ai => "23ai",
        }
    }
}

impl Default for OracleVersion {
    fn default() -> (r: Self)
        ensures
            r == OracleVersion::V12c,
    {
        OracleVersion::V12c
    }
}

/// A SQL dialect at a version.
#[derive(Debug, Clone, Copy, PartialEq, Eq, Structural)]
pub enum Dialect {
    SqlServer(SqlServerVersion),
    Oracle(OracleVersion),
}

/// Why a statement could not be rendered in a dialect.
#[derive(Debug, Clone, Copy, PartialEq, Eq)]
pub enum DialectError {
    UnsupportedTableQualifier { dialect: &'static str, qualifier: &'static str },
    UnsupportedDialectFeature { dialect: &'static str, version: &'static str, feature: &'static str },
}

/// A dialect error as the rules describe it.
pub enum SpecDialectError {
    UnsupportedTableQualifier(Seq<char>, Seq<char>),
    UnsupportedDialectFeature(Seq<char>, Seq<char>, Seq<char>),
}

pub open spec fn dialect_error_view(e: DialectError) -> SpecDialectError {
    match e {
        DialectError::UnsupportedTableQualifier { dialect, qualifier } => SpecDialectError::UnsupportedTableQualifier(
            dialect@,
            qualifier@,
        ),
        DialectError::UnsupportedDialectFeature { dialect, version, feature } => SpecDialectError::UnsupportedDialectFeature(
            dialect@,
            version@,
            feature@,
        ),
    }
}

pub open spec fn dialect_name(dl: Dialect) -> Seq<char> {
    match dl {
        Dialect::SqlServer(_) => "SQL Server"@,
        Dialect::Oracle(_) => "Oracle"@,
    }
}

pub open spec fn dialect_version(dl: Dialect) -> Seq<char> {
    match dl {
        Dialect::SqlServer(v) => sql_server_version_name(v),
        Dialect::Oracle(v) => oracle_version_name(v),
    }
}

/// `s` with every `c` written twice.
pub open spec fn doubled(s: Seq<char>, c: char) -> Seq<char>
    decreases s.len(),
{
    if s.len() == 0 {
        seq![]
    } else {
        doubled(s.drop_last(), c) + if s.last() == c {
            seq![c, c]
        } else {
            seq![s.last()]
        }
    }
}

/// An identifier quoted for the dialect.
pub open spec fn quote(dl: Dialect, id: Seq<char>) -> Seq<char> {
    match dl {
        Dialect::SqlServer(_) => seq!['['] + doubled(id, ']') + seq![']'],
        Dialect::Oracle(_) => seq!['"'] + doubled(id, '"') + seq!['"'],
    }
}

pub open spec fn table_text(dl: Dialect, t: SpecTable) -> Result<Seq<char>, SpecDialectError> {
    match dl {
        Dialect::SqlServer(_) => Ok(
            match t {
                SpecTable::Name(n) => quote(dl, n),
                SpecTable::Qualified(catalog, schema, n) => match (catalog, schema) {
                    (None, None) => quote(dl, n),
                    (None, Some(s)) => quote(dl, s) + "."@ + quote(dl, n),
                    (Some(c), None) => quote(dl, c) + ".."@ + quote(dl, n),
                    (Some(c), Some(s)) => quote(dl, c) + "."@ + quote(dl, s) + "."@ + quote(dl, n),
                },
            },
        ),
        Dialect::Oracle(_) => match t {
            SpecTable::Name(n) => Ok(quote(dl, n)),
            SpecTable::Qualified(Some(_), _, _) => Err(
                SpecDialectError::UnsupportedTableQualifier("Oracle"@, "catalog"@),
            ),
            SpecTable::Qualified(None, schema, n) => Ok(
                match schema {
                    None => quote(dl, n),
                    Some(s) => quote(dl, s) + "."@ + quote(dl, n),
                },
            ),
        },
    }
}

pub open spec fn table_reference(dl: Dialect, table: Seq<char>, alias: Seq<char>) -> Seq<char> {
    match dl {
        Dialect::SqlServer(_) => table + " AS "@ + quote(dl, alias),
        Dialect::Oracle(_) => table + " "@ + quote(dl, alias),
    }
}

pub open spec fn placeholder(dl: Dialect, name: Seq<char>) -> Seq<char> {
    match dl {
        Dialect::SqlServer(_) => "@"@ + name,
        Dialect::Oracle(_) => ":"@ + name,
    }
}

pub open spec fn literal_text(dl: Dialect, v: LiteralValue) -> Seq<char> {
    match v {
        LiteralValue::Null => "NULL"@,
        LiteralValue::Boolean(b) => if b {
            "1"@
        } else {
            "0"@
        },
        LiteralValue::Integer(n) => signed_decimal_text(n as int),
        LiteralValue::Decimal(s) => s@,
        LiteralValue::String(s) => (match dl {
            Dialect::SqlServer(_) => "N"@,
            Dialect::Oracle(_) => seq![],
        }) + "'"@ + doubled(s@, '\'') + "'"@,
    }
}

/// The items joined with `sep`.
pub open spec fn joined(items: Seq<Seq<char>>, sep: Seq<char>) -> Seq<char>
    decreases items.len(),
{
    if items.len() == 0 {
        seq![]
    } else if items.len() == 1 {
        items[0]
    } else {
        joined(items.drop_last(), sep) + sep + items.last()
    }
}

pub open spec fn function_text(dl: Dialect, f: SemanticFunction, args: Seq<Seq<char>>) -> Seq<char> {
    match dl {
        Dialect::SqlServer(v) => if f == SemanticFunction::Concat && v == SqlServerVersion::V2008 {
            "("@ + joined(Seq::new(args.len(), |i: int| "COALESCE("@ + args[i] + ", N'')"@), " + "@)
                + ")"@
        } else {
            (match f {
                SemanticFunction::Lower => "LOWER"@,
                SemanticFunction::Upper => "UPPER"@,
                SemanticFunction::Coalesce => "COALESCE"@,
                SemanticFunction::Concat => "CONCAT"@,
            }) + "("@ + joined(args, ", "@) + ")"@
        },
        Dialect::Oracle(_) => match f {
            SemanticFunction::Lower => "LOWER("@ + joined(args, ", "@) + ")"@,
            SemanticFunction::Upper => "UPPER("@ + joined(args, ", "@) + ")"@,
            SemanticFunction::Coalesce => "COALESCE("@ + joined(args, ", "@) + ")"@,
            SemanticFunction::Concat => "("@ + joined(args, " || "@) + ")"@,
        },
    }
}

pub open spec fn aggregate_text(dl: Dialect, f: AggregateFunction, x: Option<Seq<char>>) -> Seq<char> {
    let count = match dl {
        Dialect::SqlServer(_) => "COUNT_BIG"@,
        Dialect::Oracle(_) => "COUNT"@,
    };
    let arg = match x {
        Some(a) => a,
        None => "*"@,
    };
    match f {
        AggregateFunction::Count => count + "("@ + arg + ")"@,
        AggregateFunction::CountDistinct => count + "(DISTINCT "@ + arg + ")"@,
        AggregateFunction::Sum => "SUM("@ + arg + ")"@,
        AggregateFunction::Average => "AVG((1.0 * "@ + arg + "))"@,
        AggregateFunction::Minimum => "MIN("@ + arg + ")"@,
        AggregateFunction::Maximum => "MAX("@ + arg + ")"@,
    }
}

pub open spec fn direction_text(d: OrderDirection) -> Seq<char> {
    match d {
        OrderDirection::Asc => "ASC"@,
        OrderDirection::Desc => "DESC"@,
    }
}

pub open spec fn order_text(dl: Dialect, e: Seq<char>, d: OrderDirection, nulls: Option<NullsOrder>) -> Seq<char> {
    match dl {
        Dialect::SqlServer(_) => match nulls {
            None => e + " "@ + direction_text(d),
            Some(n) => "CASE WHEN "@ + e + " IS NULL THEN "@ + (match n {
                NullsOrder::First => "0 ELSE 1"@,
                NullsOrder::Last => "1 ELSE 0"@,
            }) + " END ASC, "@ + e + " "@ + direction_text(d),
        },
        Dialect::Oracle(_) => e + " "@ + direction_text(d) + match nulls {
            None => seq![],
            Some(NullsOrder::First) => " NULLS FIRST"@,
            Some(NullsOrder::Last) => " NULLS LAST"@,
        },
    }
}

pub open spec fn first_by_text(dl: Dialect, projection: Seq<char>, source: Seq<char>, predicate: Seq<char>, order_by: Seq<Seq<char>>) -> Result<Seq<char>, SpecDialectError> {
    match dl {
        Dialect::SqlServer(_) => Ok(
            "SELECT TOP (1) "@ + projection + "\nFROM "@ + source + "\nWHERE "@ + predicate
                + "\nORDER BY "@ + joined(order_by, ", "@),
        ),
        Dialect::Oracle(v) => if v == OracleVersion::V11g {
            Err(
                SpecDialectError::UnsupportedDialectFeature(
                    "Oracle"@,
                    "11g"@,
                    "firstBy relation selection"@,
                ),
            )
        } else {
            Ok(
                "SELECT "@ + projection + "\nFROM "@ + source + "\nWHERE "@ + predicate
                    + "\nORDER BY "@ + joined(order_by, ", "@) + "\nFETCH FIRST 1 ROW ONLY"@,
            )
        },
    }
}

pub open spec fn single_row_source(dl: Dialect, alias: Seq<char>) -> Seq<char> {
    match dl {
        Dialect::SqlServer(_) => "(VALUES (1)) AS "@ + quote(dl, alias) + "("@ + quote(dl, "value"@)
            + ")"@,
        Dialect::Oracle(_) => "DUAL "@ + quote(dl, alias),
    }
}

pub open spec fn supports_offset_fetch(dl: Dialect) -> bool {
    match dl {
        Dialect::SqlServer(v) => v != SqlServerVersion::V2008,
        Dialect::Oracle(v) => v != OracleVersion::V11g,
    }
}

pub open spec fn pagination_text(dl: Dialect, offset: Option<u64>, limit: Option<u64>) -> Result<Seq<char>, SpecDialectError> {
    if !supports_offset_fetch(dl) {
        Err(
            SpecDialectError::UnsupportedDialectFeature(
                dialect_name(dl),
                dialect_version(dl),
                "OFFSET/FETCH pagination"@,
            ),
        )
    } else {
        Ok(
            "\nOFFSET "@ + decimal_text(offset.unwrap_or(0u64) as nat) + " ROWS"@ + match limit {
                Some(l) => " FETCH NEXT "@ + decimal_text(l as nat) + " ROWS ONLY"@,
                None => seq![],
            },
        )
    }
}

impl Dialect {
    pub fn name(self) -> (r: &'static str)
        ensures
            r@ == dialect_name(self),
    {
        match self {
            Dialect::SqlServer(_) => "SQL Server",
            Dialect::Oracle(_) => "Oracle",
        }
    }

    fn version_name(self) -> (r: &'static str)
        ensures
            r@ == dialect_version(self),
    {
        match self {
            Dialect::SqlServer(v) => v.as_str(),
            Dialect::Oracle(v) => v.as_str(),
        }
    }

    pub fn quote_identifier(self, id: &str) -> (r: String)
        ensures
            r@ == quote(self, id@),
    {
        let (open, c) = match self {
            Dialect::SqlServer(_) => ('[', ']'),
            Dialect::Oracle(_) => ('"', '"'),
        };
        let mut r = String::new();
        push_char(&mut r, open);
        let chars = chars_of(id);
        let ghost start = r@;
        let mut i: usize = 0;
        while i < chars.len()
            invariant
                chars@ == id@,
                i <= chars@.len(),
                r@ == start + doubled(id@.take(i as int), c),
            decreases chars.len() - i,
        {
            assert(id@.take(i + 1).drop_last() =~= id@.take(i as int));
            push_char(&mut r, chars[i]);
            if chars[i] == c {
                push_char(&mut r, c);
            }
            assert(r@ =~= start + doubled(id@.take(i + 1), c));
            i = i + 1;
        }
        assert(id@.take(id@.len() as int) =~= id@);
        push_char(&mut r, c);
        r
    }

    pub fn render_table_name(self, table: &TableName) -> (r: Result<String, DialectError>)
        ensures
            match table_text(self, table_view(*table)) {
                Ok(s) => r matches Ok(x) && x@ == s,
                Err(e) => r matches Err(x) && dialect_error_view(x) == e,
            },
    {
        match self {
            Dialect::SqlServer(_) => Ok(
                match table {
                    TableName::Name(n) => self.quote_identifier(n.as_str()),
                    TableName::Qualified { catalog, schema, name } => {
                        let n = self.quote_identifier(name.as_str());
                        match (catalog, schema) {
                            (None, None) => n,
                            (None, Some(s)) => concat3(self.quote_identifier(s.as_str()).as_str(), ".", n.as_str()),
                            (Some(c), None) => concat3(self.quote_identifier(c.as_str()).as_str(), "..", n.as_str()),
                            (Some(c), Some(s)) => {
                                let mut r = concat3(self.quote_identifier(c.as_str()).as_str(), ".", self.quote_identifier(s.as_str()).as_str());
                                r.append(".");
                                r.append(n.as_str());
                                r
                            },
                        }
                    },
                },
            ),
            Dialect::Oracle(_) => match table {
                TableName::Name(n) => Ok(self.quote_identifier(n.as_str())),
                TableName::Qualified { catalog: Some(_), .. } => Err(
                    DialectError::UnsupportedTableQualifier { dialect: "Oracle", qualifier: "catalog" },
                ),
                TableName::Qualified { catalog: None, schema, name } => {
                    let n = self.quote_identifier(name.as_str());
                    Ok(
                        match schema {
                            None => n,
                            Some(s) => concat3(self.quote_identifier(s.as_str()).as_str(), ".", n.as_str()),
                        },
                    )
                },
            },
        }
    }

    pub fn render_table_reference(self, table: &str, alias: &str) -> (r: String)
        ensures
            r@ == table_reference(self, table@, alias@),
    {
        match self {
            Dialect::SqlServer(_) => concat3(table, " AS ", self.quote_identifier(alias).as_str()),
            Dialect::Oracle(_) => concat3(table, " ", self.quote_identifier(alias).as_str()),
        }
    }

    pub fn render_placeholder(self, name: &str) -> (r: String)
        ensures
            r@ == placeholder(self, name@),
    {
        match self {
            Dialect::SqlServer(_) => concat("@", name),
            Dialect::Oracle(_) => concat(":", name),
        }
    }

    pub fn render_literal(self, v: &LiteralValue) -> (r: String)
        ensures
            r@ == literal_text(self, *v),
    {
        match v {
            LiteralValue::Null => text("NULL"),
            LiteralValue::Boolean(b) => if *b {
                text("1")
            } else {
                text("0")
            },
            LiteralValue::Integer(n) => i64_text(*n),
            LiteralValue::Decimal(s) => text(s.as_str()),
            LiteralValue::String(s) => {
                let mut r = match self {
                    Dialect::SqlServer(_) => text("N"),
                    Dialect::Oracle(_) => String::new(),
                };
                r.append("'");
                let chars = chars_of(s.as_str());
                let ghost start = r@;
                let mut i: usize = 0;
                while i < chars.len()
                    invariant
                        chars@ == s@,
                        i <= chars@.len(),
                        r@ == start + doubled(s@.take(i as int), '\''),
                    decreases chars.len() - i,
                {
                    assert(s@.take(i + 1).drop_last() =~= s@.take(i as int));
                    push_char(&mut r, chars[i]);
                    if chars[i] == '\'' {
                        push_char(&mut r, '\'');
                    }
                    assert(r@ =~= start + doubled(s@.take(i + 1), '\''));
                    i = i + 1;
                }
                assert(s@.take(s@.len() as int) =~= s@);
                r.append("'");
                r
            },
        }
    }
}

/// The items joined with `sep`.
pub fn join(items: &Vec<String>, sep: &str) -> (r: String)
    ensures
        r@ == joined(Seq::new(items@.len(), |i: int| items@[i]@), sep@),
{
    let ghost v = Seq::new(items@.len(), |i: int| items@[i]@);
    let mut r = String::new();
    let mut i: usize = 0;
    while i < items.len()
        invariant
            v == Seq::new(items@.len(), |i: int| items@[i]@),
            i <= items@.len(),
            r@ == joined(v.take(i as int), sep@),
        decreases items.len() - i,
    {
        assert(v.take(i + 1).drop_last() =~= v.take(i as int));
        if i > 0 {
            r.append(sep);
        }
        r.append(items[i].as_str());
        proof {
            if i == 0 {
                assert(r@ =~= joined(v.take(1), sep@));
            } else {
                assert(r@ =~= joined(v.take(i + 1), sep@));
            }
        }
        i = i + 1;
    }
    assert(v.take(items@.len() as int) =~= v);
    r
}

pub open spec fn texts_view(v: Seq<String>) -> Seq<Seq<char>> {
    Seq::new(v.len(), |i: int| v[i]@)
}

impl Dialect {
    pub fn render_function(self, f: SemanticFunction, args: &Vec<String>) -> (r: String)
        ensures
            r@ == function_text(self, f, texts_view(args@)),
    {
        let ghost a = texts_view(args@);
        match self {
            Dialect::SqlServer(v) => {
                if f == SemanticFunction::Concat && v == SqlServerVersion::V2008 {
                    let mut wrapped: Vec<String> = Vec::new();
                    let mut i: usize = 0;
                    while i < args.len()
                        invariant
                            a == texts_view(args@),
                            i <= args@.len(),
                            wrapped@.len() == i,
                            forall|j: int| 0 <= j < i ==> (#[trigger] wrapped@[j])@ == "COALESCE("@ + a[j] + ", N'')"@,
                        decreases args.len() - i,
                    {
                        wrapped.push(concat3("COALESCE(", args[i].as_str(), ", N'')"));
                        i = i + 1;
                    }
                    assert(texts_view(wrapped@) =~= Seq::new(a.len(), |i: int| "COALESCE("@ + a[i] + ", N'')"@));
                    return concat3("(", join(&wrapped, " + ").as_str(), ")");
                }
                let name = match f {
                    SemanticFunction::Lower => "LOWER",
                    SemanticFunction::Upper => "UPPER",
                    SemanticFunction::Coalesce => "COALESCE",
                    SemanticFunction::Concat => "CONCAT",
                };
                let mut r = text(name);
                r.append("(");
                r.append(join(args, ", ").as_str());
                r.append(")");
                r
            },
            Dialect::Oracle(_) => match f {
                SemanticFunction::Lower => concat3("LOWER(", join(args, ", ").as_str(), ")"),
                SemanticFunction::Upper => concat3("UPPER(", join(args, ", ").as_str(), ")"),
                SemanticFunction::Coalesce => concat3("COALESCE(", join(args, ", ").as_str(), ")"),
                SemanticFunction::Concat => concat3("(", join(args, " || ").as_str(), ")"),
            },
        }
    }

    pub fn render_aggregate(self, f: AggregateFunction, x: Option<&str>) -> (r: String)
        ensures
            r@ == aggregate_text(self, f, match x {
                Some(s) => Some(s@),
                None => None,
            }),
    {
        let count = match self {
            Dialect::SqlServer(_) => "COUNT_BIG",
            Dialect::Oracle(_) => "COUNT",
        };
        let arg = match x {
            Some(a) => a,
            None => "*",
        };
        match f {
            AggregateFunction::Count => {
                let mut r = text(count);
                r.append("(");
                r.append(arg);
                r.append(")");
                r
            },
            AggregateFunction::CountDistinct => {
                let mut r = text(count);
                r.append("(DISTINCT ");
                r.append(arg);
                r.append(")");
                r
            },
            AggregateFunction::Sum => concat3("SUM(", arg, ")"),
            AggregateFunction::Average => concat3("AVG((1.0 * ", arg, "))"),
            AggregateFunction::Minimum => concat3("MIN(", arg, ")"),
            AggregateFunction::Maximum => concat3("MAX(", arg, ")"),
        }
    }

    pub fn render_order(self, e: &str, d: OrderDirection, nulls: Option<NullsOrder>) -> (r: String)
        ensures
            r@ == order_text(self, e@, d, nulls),
    {
        let direction = match d {
            OrderDirection::Asc => "ASC",
            OrderDirection::Desc => "DESC",
        };
        match self {
            Dialect::SqlServer(_) => match nulls {
                None => concat3(e, " ", direction),
                Some(n) => {
                    let mut r = concat3("CASE WHEN ", e, " IS NULL THEN ");
                    r.append(
                        match n {
                            NullsOrder::First => "0 ELSE 1",
                            NullsOrder::Last => "1 ELSE 0",
                        },
                    );
                    r.append(" END ASC, ");
                    r.append(e);
                    r.append(" ");
                    r.append(direction);
                    assert(r@ =~= order_text(self, e@, d, nulls));
                    r
                },
            },
            Dialect::Oracle(_) => {
                let mut r = concat3(e, " ", direction);
                match nulls {
                    None => {},
                    Some(NullsOrder::First) => r.append(" NULLS FIRST"),
                    Some(NullsOrder::Last) => r.append(" NULLS LAST"),
                }
                assert(r@ =~= order_text(self, e@, d, nulls));
                r
            },
        }
    }

    pub fn render_first_by_query(self, projection: &str, source: &str, predicate: &str, order_by: &Vec<String>) -> (r: Result<String, DialectError>)
        ensures
            match first_by_text(self, projection@, source@, predicate@, texts_view(order_by@)) {
                Ok(s) => r matches Ok(x) && x@ == s,
                Err(e) => r matches Err(x) && dialect_error_view(x) == e,
            },
    {
        let head = match self {
            Dialect::SqlServer(_) => "SELECT TOP (1) ",
            Dialect::Oracle(v) => {
                if v == OracleVersion::V11g {
                    return Err(DialectError::UnsupportedDialectFeature {
                        dialect: "Oracle",
                        version: "11g",
                        feature: "firstBy relation selection",
                    });
                }
                "SELECT "
            },
        };
        let mut r = text(head);
        r.append(projection);
        r.append("\nFROM ");
        r.append(source);
        r.append("\nWHERE ");
        r.append(predicate);
        r.append("\nORDER BY ");
        r.append(join(order_by, ", ").as_str());
        match self {
            Dialect::SqlServer(_) => {},
            Dialect::Oracle(_) => r.append("\nFETCH FIRST 1 ROW ONLY"),
        }
        Ok(r)
    }

    pub fn render_single_row_source(self, alias: &str) -> (r: String)
        ensures
            r@ == single_row_source(self, alias@),
    {
        match self {
            Dialect::SqlServer(_) => {
                let mut r = concat("(VALUES (1)) AS ", self.quote_identifier(alias).as_str());
                r.append("(");
                r.append(self.quote_identifier("value").as_str());
                r.append(")");
                r
            },
            Dialect::Oracle(_) => concat("DUAL ", self.quote_identifier(alias).as_str()),
        }
    }

    pub fn render_pagination(self, offset: Option<u64>, limit: Option<u64>) -> (r: Result<String, DialectError>)
        ensures
            match pagination_text(self, offset, limit) {
                Ok(s) => r matches Ok(x) && x@ == s,
                Err(e) => r matches Err(x) && dialect_error_view(x) == e,
            },
    {
        let supported = match self {
            Dialect::SqlServer(v) => v != SqlServerVersion::V2008,
            Dialect::Oracle(v) => v != OracleVersion::V11g,
        };
        if !supported {
            return Err(DialectError::UnsupportedDialectFeature {
                dialect: self.name(),
                version: self.version_name(),
                feature: "OFFSET/FETCH pagination",
            });
        }
        let start = match offset {
            Some(o) => o,
            None => 0,
        };
        let mut r = concat3("\nOFFSET ", u64_text(start).as_str(), " ROWS");
        match limit {
            Some(l) => {
                r.append(" FETCH NEXT ");
                r.append(u64_text(l).as_str());
                r.append(" ROWS ONLY");
            },
            None => {},
        }
        Ok(r)
    }
}

/// An order item places `NULL` values where it asks: Oracle appends `NULLS FIRST` or
/// `NULLS LAST` after the direction (`ASC` or `DESC`), and nothing when the item asks
/// nothing; SQL Server sorts first on a key that is 0 for `NULL` when nulls come first and
/// 1 when they come last. The two placements never render alike.
pub proof fn law_orders_place_nulls_as_asked(e: Seq<char>, d: OrderDirection, ov: OracleVersion, sv: SqlServerVersion)
    ensures
        ({
            let dir = match d {
                OrderDirection::Asc => "ASC"@,
                OrderDirection::Desc => "DESC"@,
            };
            &&& order_text(Dialect::Oracle(ov), e, d, Some(NullsOrder::First)) == e + " "@ + dir + " NULLS FIRST"@
            &&& order_text(Dialect::Oracle(ov), e, d, Some(NullsOrder::Last)) == e + " "@ + dir + " NULLS LAST"@
            &&& order_text(Dialect::Oracle(ov), e, d, None) == e + " "@ + dir
            &&& order_text(Dialect::SqlServer(sv), e, d, Some(NullsOrder::First)) == "CASE WHEN "@ + e
                + " IS NULL THEN 0 ELSE 1 END ASC, "@ + e + " "@ + dir
            &&& order_text(Dialect::SqlServer(sv), e, d, Some(NullsOrder::Last)) == "CASE WHEN "@ + e
                + " IS NULL THEN 1 ELSE 0 END ASC, "@ + e + " "@ + dir
            &&& order_text(Dialect::SqlServer(sv), e, d, None) == e + " "@ + dir
            &&& order_text(Dialect::Oracle(ov), e, d, Some(NullsOrder::First)) != order_text(Dialect::Oracle(ov), e, d, Some(NullsOrder::Last))
            &&& order_text(Dialect::SqlServer(sv), e, d, Some(NullsOrder::First)) != order_text(Dialect::SqlServer(sv), e, d, Some(NullsOrder::Last))
        }),
{
    reveal_strlit(" NULLS FIRST");
    reveal_strlit(" NULLS LAST");
    reveal_strlit("0 ELSE 1");
    reveal_strlit("1 ELSE 0");
    reveal_strlit(" IS NULL THEN 0 ELSE 1 END ASC, ");
    reveal_strlit(" IS NULL THEN 1 ELSE 0 END ASC, ");
    reveal_strlit(" IS NULL THEN ");
    reveal_strlit(" END ASC, ");
    reveal_strlit("CASE WHEN ");
    reveal_strlit(" ");
    let dir = match d {
        OrderDirection::Asc => "ASC"@,
        OrderDirection::Desc => "DESC"@,
    };
    let first_o = e + " "@ + dir + " NULLS FIRST"@;
    let last_o = e + " "@ + dir + " NULLS LAST"@;
    assert(first_o[first_o.len() - 5] != last_o[last_o.len() - 5]);
    let head = "CASE WHEN "@ + e + " IS NULL THEN "@;
    assert("CASE WHEN "@ + e + " IS NULL THEN "@ + "0 ELSE 1"@ + " END ASC, "@ + e + " "@ + dir =~= "CASE WHEN "@ + e
        + " IS NULL THEN 0 ELSE 1 END ASC, "@ + e + " "@ + dir);
    assert("CASE WHEN "@ + e + " IS NULL THEN "@ + "1 ELSE 0"@ + " END ASC, "@ + e + " "@ + dir =~= "CASE WHEN "@ + e
        + " IS NULL THEN 1 ELSE 0 END ASC, "@ + e + " "@ + dir);
    let first_s = order_text(Dialect::SqlServer(sv), e, d, Some(NullsOrder::First));
    let last_s = order_text(Dialect::SqlServer(sv), e, d, Some(NullsOrder::Last));
    assert(first_s[head.len() as int] == '0');
    assert(last_s[head.len() as int] == '1');
}

/// A parameter is written as a placeholder, never as its value: `@` and its name for
/// SQL Server, `:` and its name for Oracle.
pub proof fn law_placeholders_name_the_parameter(name: Seq<char>, ov: OracleVersion, sv: SqlServerVersion)
    ensures
        placeholder(Dialect::SqlServer(sv), name) == seq!['@'] + name,
        placeholder(Dialect::Oracle(ov), name) == seq![':'] + name,
{
    reveal_strlit("@");
    reveal_strlit(":");
}

/// Each function and aggregate is rendered by its own SQL name around its argument:
/// `LOWER`, `UPPER`, `COALESCE`; `MIN`, `MAX`, `SUM`; `COUNT` (`COUNT_BIG` on SQL Server),
/// with `DISTINCT` for a distinct count and `*` when it counts rows; an average is taken
/// over the argument times `1.0`, so integer columns do not average by integer division.
pub proof fn law_functions_render_their_name(dl: Dialect, a: Seq<char>, b: Seq<char>)
    ensures
        function_text(dl, SemanticFunction::Lower, seq![a]) == "LOWER("@ + a + ")"@,
        function_text(dl, SemanticFunction::Upper, seq![a]) == "UPPER("@ + a + ")"@,
        function_text(dl, SemanticFunction::Coalesce, seq![a, b]) == "COALESCE("@ + a + ", "@ + b + ")"@,
        aggregate_text(dl, AggregateFunction::Minimum, Some(a)) == "MIN("@ + a + ")"@,
        aggregate_text(dl, AggregateFunction::Maximum, Some(a)) == "MAX("@ + a + ")"@,
        aggregate_text(dl, AggregateFunction::Sum, Some(a)) == "SUM("@ + a + ")"@,
        aggregate_text(dl, AggregateFunction::Average, Some(a)) == "AVG((1.0 * "@ + a + "))"@,
        aggregate_text(dl, AggregateFunction::Count, None) == (match dl {
            Dialect::SqlServer(_) => "COUNT_BIG"@,
            Dialect::Oracle(_) => "COUNT"@,
        }) + "(*)"@,
        aggregate_text(dl, AggregateFunction::CountDistinct, Some(a)) == (match dl {
            Dialect::SqlServer(_) => "COUNT_BIG"@,
            Dialect::Oracle(_) => "COUNT"@,
        }) + "(DISTINCT "@ + a + ")"@,
{
    reveal_strlit("(");
    reveal_strlit(")");
    reveal_strlit("*");
    reveal_strlit("(*)");
    reveal_strlit("LOWER");
    reveal_strlit("LOWER(");
    reveal_strlit("UPPER");
    reveal_strlit("UPPER(");
    reveal_strlit("COALESCE");
    reveal_strlit("COALESCE(");
    let two = seq![a, b];
    assert(two.drop_last() =~= seq![a]);
    assert(joined(two.drop_last(), ", "@) == a);
    assert(two.last() == b);
    assert(joined(two, ", "@) == a + ", "@ + b);
    assert("COALESCE"@ + "("@ + (a + ", "@ + b) + ")"@ =~= "COALESCE("@ + a + ", "@ + b + ")"@);
    assert("COALESCE("@ + (a + ", "@ + b) + ")"@ =~= "COALESCE("@ + a + ", "@ + b + ")"@);
    assert("LOWER"@ + "("@ + a + ")"@ =~= "LOWER("@ + a + ")"@);
    assert("UPPER"@ + "("@ + a + ")"@ =~= "UPPER("@ + a + ")"@);
    assert("COUNT_BIG"@ + "("@ + "*"@ + ")"@ =~= "COUNT_BIG"@ + "(*)"@);
    assert("COUNT"@ + "("@ + "*"@ + ")"@ =~= "COUNT"@ + "(*)"@);
}

} // verus!
