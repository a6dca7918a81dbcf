use vstd::prelude::*;

verus! {

/// One column of a table: its name, its SQL type (`TEXT` when absent), and
/// whether it admits NULL (it does not when absent).
#[derive(Debug, Clone, PartialEq, Eq)]
pub struct TableField {
    pub name: String,
    pub sql_type: Option<String>,
    pub nullable: Option<bool>,
}

/// The column definition `<name> <type> NULL|NOT NULL`.
pub open spec fn field_sql(f: TableField) -> Seq<char> {
    let ty = match f.sql_type {
        Some(t) => t@,
        None => "TEXT"@,
    };
    let null = if f.nullable == Some(true) {
        "NULL"@
    } else {
        "NOT NULL"@
    };
    f.name@ + " "@ + ty + " "@ + null
}

/// The column definitions of `fs`, separated by commas.
pub open spec fn fields_sql(fs: Seq<TableField>) -> Seq<char>
    decreases fs.len(),
{
    if fs.len() == 0 {
        Seq::empty()
    } else if fs.len() == 1 {
        field_sql(fs[0])
    } else {
        fields_sql(fs.drop_last()) + ","@ + field_sql(fs.last())
    }
}

/// The idempotent statement that creates table `name` with columns `fs`.
pub open spec fn create_table_text(name: Seq<char>, fs: Seq<TableField>) -> Seq<char> {
    "CREATE TABLE IF NOT EXISTS "@ + name + " ("@ + fields_sql(fs) + ")"@
}

impl TableField {
    pub fn new(name: String, sql_type: Option<String>, nullable: Option<bool>) -> (r: TableField)
        ensures
            r == (TableField { name, sql_type, nullable }),
    {
        TableField { name, sql_type, nullable }
    }

    /// The column definition `<name> <type> NULL|NOT NULL`.
    pub fn to_sql(&self) -> (r: String)
        ensures
            r@ == field_sql(*self),
    {
        let mut s = self.name.clone();
        s.append(" ");
        match &self.sql_type {
            Some(t) => s.append(t.as_str()),
            None => s.append("TEXT"),
        }
        s.append(" ");
        if self.nullable == Some(true) {
            s.append("NULL");
        } else {
            s.append("NOT NULL");
        }
        s
    }
}

/// The name of the table of processed files.
pub const FILES_PROCESSED: &'static str = "files_processed";

/// The columns of the table of processed files: the file's key, its prefix,
/// its timestamp and when its import completed, none of them nullable.
pub fn files_processed_fields() -> (r: Vec<TableField>)
    ensures
        r@ == seq![
            TableField { name: r@[0].name, sql_type: None, nullable: None },
            TableField { name: r@[1].name, sql_type: None, nullable: None },
            TableField { name: r@[2].name, sql_type: r@[2].sql_type, nullable: None },
            TableField { name: r@[3].name, sql_type: r@[3].sql_type, nullable: None },
        ],
        r@[0].name@ == "file_name"@,
        r@[1].name@ == "prefix"@,
        r@[2].name@ == "file_timestamp"@,
        r@[2].sql_type->0@ == "TIMESTAMPTZ"@,
        r@[3].name@ == "processed_at"@,
        r@[3].sql_type->0@ == "TIMESTAMPTZ"@,
{
    let mut r: Vec<TableField> = Vec::new();
    r.push(TableField::new(String::from_str("file_name"), None, None));
    r.push(TableField::new(String::from_str("prefix"), None, None));
    r.push(
        TableField::new(
            String::from_str("file_timestamp"),
            Some(String::from_str("TIMESTAMPTZ")),
            None,
        ),
    );
    r.push(
        TableField::new(String::from_str("processed_at"), Some(String::from_str("TIMESTAMPTZ")), None),
    );
    assert(r@ =~= seq![
        TableField { name: r@[0].name, sql_type: None, nullable: None },
        TableField { name: r@[1].name, sql_type: None, nullable: None },
        TableField { name: r@[2].name, sql_type: r@[2].sql_type, nullable: None },
        TableField { name: r@[3].name, sql_type: r@[3].sql_type, nullable: None },
    ]);
    r
}

/// The statement `CREATE TABLE IF NOT EXISTS <name> (<field>,<field>...)`.
pub fn create_table_sql(name: &str, fields: &Vec<TableField>) -> (r: String)
    ensures
        r@ == create_table_text(name@, fields@),
{
    let mut body = String::new();
    let mut i: usize = 0;
    while i < fields.len()
        invariant
            i <= fields@.len(),
            body@ == fields_sql(fields@.subrange(0, i as int)),
        decreases fields@.len() - i,
    {
        let ghost pre = fields@.subrange(0, i as int);
        let ghost cur = fields@.subrange(0, i + 1);
        assert(cur.drop_last() =~= pre);
        if i > 0 {
            body.append(",");
        }
        let f = fields[i].to_sql();
        body.append(f.as_str());
        proof {
            if i == 0 {
                assert(body@ =~= field_sql(cur[0]));
            } else {
                assert(body@ =~= fields_sql(pre) + ","@ + field_sql(cur.last()));
            }
        }
        i = i + 1;
    }
    assert(fields@.subrange(0, fields@.len() as int) =~= fields@);
    let mut s = String::from_str("CREATE TABLE IF NOT EXISTS ");
    s.append(name);
    s.append(" (");
    s.append(body.as_str());
    s.append(")");
    assert(s@ =~= create_table_text(name@, fields@));
    s
}

} // verus!
