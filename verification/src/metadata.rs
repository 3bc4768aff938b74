//! The schemas, tables and columns that a catalog query lists.

use crate::json;
use crate::json::{Json, JsonView};
use crate::ordered;
use crate::ordered::OrderedMap;
use crate::rows;
use crate::secrets;
use crate::text;
use vstd::prelude::*;

verus! {

// ------------------------------------------------------------ fields of a row

/// The first of `columns` that is named `name`, whatever the case of its letters.
pub open spec fn column_index(columns: Seq<Seq<char>>, name: Seq<char>) -> Option<int>
    decreases columns.len(),
{
    if columns.len() == 0 {
        None
    } else if text::lowered(columns[0]) == text::lowered(name) {
        Some(0)
    } else {
        match column_index(columns.skip(1), name) {
            Some(i) => Some(i + 1),
            None => None,
        }
    }
}

/// The text of a cell: that of a string, the JSON of another value, and none of
/// null.
pub open spec fn cell_text(cell: JsonView) -> Option<Seq<char>> {
    match cell {
        JsonView::Null => None,
        JsonView::Text(s) => Some(s),
        _ => Some(cell.rendered()),
    }
}

/// The text that a row has in the column `name`.
pub open spec fn field_text(
    columns: Seq<Seq<char>>,
    row: Seq<JsonView>,
    name: Seq<char>,
) -> Option<Seq<char>> {
    match column_index(columns, name) {
        Some(i) => if i < row.len() {
            cell_text(row[i])
        } else {
            None
        },
        None => None,
    }
}

/// A column that is found is one of the columns.
proof fn lemma_column_index(columns: Seq<Seq<char>>, name: Seq<char>)
    ensures
        column_index(columns, name) matches Some(i) ==> 0 <= i < columns.len(),
    decreases columns.len(),
{
    if columns.len() > 0 {
        lemma_column_index(columns.skip(1), name);
    }
}

/// Reads the text that a row has in the column `name`.
pub fn field(columns: &[String], row: &[Json], name: &str) -> (r: Option<String>)
    ensures
        match r {
            Some(s) => field_text(secrets::texts(columns@), json::documents(row@), name@) == Some(
                s@,
            ),
            None => field_text(secrets::texts(columns@), json::documents(row@), name@) is None,
        },
{
    let ghost all = secrets::texts(columns@);
    let mut i: usize = 0;
    proof {
        json::lemma_documents(row@);
        assert(all.skip(0) =~= all);
    }
    while i < columns.len() && !text::same_letters(columns[i].as_str(), name)
        invariant
            i <= columns@.len(),
            all == secrets::texts(columns@),
            column_index(all, name@) == match column_index(all.skip(i as int), name@) {
                Some(k) => Some(i + k),
                None => None,
            },
        decreases columns@.len() - i,
    {
        assert(all[i as int] == columns@[i as int]@);
        assert(all.skip(i as int).skip(1) =~= all.skip(i + 1));
        i += 1;
    }
    if i == columns.len() {
        return None;
    }
    assert(all.skip(i as int)[0] == columns@[i as int]@);
    if i >= row.len() {
        return None;
    }
    match &row[i] {
        Json::Null => None,
        Json::Text(s) => Some(s.clone()),
        other => Some(other.to_text()),
    }
}

/// `s`, or else `default`.
pub open spec fn or_else(s: Option<Seq<char>>, default: Seq<char>) -> Seq<char> {
    match s {
        Some(s) => s,
        None => default,
    }
}

/// Reads the text that a row has in a column, or else gives `default`.
fn field_or(columns: &[String], row: &[Json], name: &str, default: &str) -> (r: String)
    ensures
        r@ == or_else(
            field_text(secrets::texts(columns@), json::documents(row@), name@),
            default@,
        ),
{
    match field(columns, row, name) {
        Some(s) => s,
        None => default.to_string(),
    }
}

// -------------------------------------------------------------------- columns

/// The position of a column in its table: the one that the row gives, or else the
/// next one behind `count` columns.
pub open spec fn ordinal_of(columns: Seq<Seq<char>>, row: Seq<JsonView>, count: nat) -> i64 {
    match field_text(columns, row, "ordinal_position"@) {
        Some(s) => match text::parsed_i64(s) {
            Some(n) => n,
            None => (count + 1) as i64,
        },
        None => (count + 1) as i64,
    }
}

/// Whether a column may be null: where the row says `YES` or `true`, or nothing.
pub open spec fn nullable_of(columns: Seq<Seq<char>>, row: Seq<JsonView>) -> bool {
    match field_text(columns, row, "is_nullable"@) {
        Some(s) => text::lowered(s) == text::lowered("YES"@) || text::lowered(s)
            == text::lowered("true"@),
        None => true,
    }
}

/// The description of the column that a row is about, where `count` columns of its
/// table were described before.
pub open spec fn column_document(
    columns: Seq<Seq<char>>,
    row: Seq<JsonView>,
    count: nat,
) -> JsonView {
    JsonView::Object(
        Map::<Seq<char>, JsonView>::empty().insert(
            "name"@,
            JsonView::Text(or_else(field_text(columns, row, "column_name"@), ""@)),
        ).insert(
            "dataType"@,
            JsonView::Text(or_else(field_text(columns, row, "data_type"@), ""@)),
        ).insert("nullable"@, JsonView::Bool(nullable_of(columns, row))).insert(
            "ordinal"@,
            JsonView::Number(text::decimal(ordinal_of(columns, row, count) as int)),
        ),
    )
}

/// Describes the column that a row is about.
fn describe_column(columns: &[String], row: &[Json], count: usize) -> (r: Json)
    requires
        count < usize::MAX,
    ensures
        r@ == column_document(secrets::texts(columns@), json::documents(row@), count as nat),
{
    let next: i64 = (count + 1) as i64;
    let ordinal: i64 = match field(columns, row, "ordinal_position") {
        Some(s) => match text::parse_i64(s.as_str()) {
            Some(n) => n,
            None => next,
        },
        None => next,
    };
    let nullable: bool = match field(columns, row, "is_nullable") {
        Some(s) => text::same_letters(s.as_str(), "YES") || text::same_letters(
            s.as_str(),
            "true",
        ),
        None => true,
    };
    let name: String = field_or(columns, row, "column_name", "");
    let data_type: String = field_or(columns, row, "data_type", "");
    let mut out: Vec<(String, Json)> = Vec::new();
    json::put(&mut out, "name", Json::Text(name));
    json::put(&mut out, "dataType", Json::Text(data_type));
    json::put(&mut out, "nullable", Json::Bool(nullable));
    json::put(&mut out, "ordinal", Json::from_i64(ordinal));
    Json::Object(out)
}

// ------------------------------------------------------------------- grouping

/// The name of the schema that a row is about, with its catalog.
pub open spec fn schema_name(columns: Seq<Seq<char>>, row: Seq<JsonView>) -> Seq<char> {
    or_else(field_text(columns, row, "table_catalog"@), "hive_metastore"@) + "."@ + or_else(
        field_text(columns, row, "table_schema"@),
        "default"@,
    )
}

/// The name of the table that a row is about; empty where it is about none.
pub open spec fn table_name(columns: Seq<Seq<char>>, row: Seq<JsonView>) -> Seq<char> {
    or_else(field_text(columns, row, "table_name"@), ""@)
}

/// The tables of a schema, with their columns in order.
pub open spec fn tables_in(
    schemas: Map<Seq<char>, Map<Seq<char>, Seq<JsonView>>>,
    schema: Seq<char>,
) -> Map<Seq<char>, Seq<JsonView>> {
    if schemas.contains_key(schema) {
        schemas[schema]
    } else {
        Map::empty()
    }
}

/// The columns of a table, in order.
pub open spec fn columns_in(tables: Map<Seq<char>, Seq<JsonView>>, table: Seq<char>) -> Seq<
    JsonView,
> {
    if tables.contains_key(table) {
        tables[table]
    } else {
        Seq::empty()
    }
}

/// `schemas` with the column that a row is about, at the end of its table. A row
/// without a table adds nothing.
pub open spec fn with_row(
    columns: Seq<Seq<char>>,
    schemas: Map<Seq<char>, Map<Seq<char>, Seq<JsonView>>>,
    row: Seq<JsonView>,
) -> Map<Seq<char>, Map<Seq<char>, Seq<JsonView>>> {
    let schema = schema_name(columns, row);
    let table = table_name(columns, row);
    if table.len() == 0 {
        schemas
    } else {
        let tables = tables_in(schemas, schema);
        let known = columns_in(tables, table);
        schemas.insert(
            schema,
            tables.insert(table, known.push(column_document(columns, row, known.len()))),
        )
    }
}

/// The schemas, tables and columns that a list of rows is about.
pub open spec fn grouped(columns: Seq<Seq<char>>, rows: Seq<Seq<JsonView>>) -> Map<
    Seq<char>,
    Map<Seq<char>, Seq<JsonView>>,
>
    decreases rows.len(),
{
    if rows.len() == 0 {
        Map::empty()
    } else {
        with_row(columns, grouped(columns, rows.drop_last()), rows.last())
    }
}

/// The columns that each table is given.
pub open spec fn tables_of(tables: Map<Seq<char>, Vec<Json>>) -> Map<Seq<char>, Seq<JsonView>> {
    tables.map_values(|c: Vec<Json>| json::documents(c@))
}

/// The tables that each schema is given.
pub open spec fn schemas_of(schemas: Map<Seq<char>, OrderedMap<Vec<Json>>>) -> Map<
    Seq<char>,
    Map<Seq<char>, Seq<JsonView>>,
> {
    schemas.map_values(|t: OrderedMap<Vec<Json>>| tables_of(t@))
}

/// A table has no more columns than there are rows.
proof fn lemma_columns_counted(
    columns: Seq<Seq<char>>,
    rows: Seq<Seq<JsonView>>,
    schema: Seq<char>,
    table: Seq<char>,
)
    ensures
        columns_in(tables_in(grouped(columns, rows), schema), table).len() <= rows.len(),
    decreases rows.len(),
{
    if rows.len() > 0 {
        lemma_columns_counted(columns, rows.drop_last(), schema, table);
    }
}

/// Puts the column that a row is about at the end of its table.
fn add_row(
    schemas: &mut OrderedMap<OrderedMap<Vec<Json>>>,
    columns: &[String],
    row: &[Json],
)
    requires
        columns_in(
            tables_in(
                schemas_of(old(schemas)@),
                schema_name(secrets::texts(columns@), json::documents(row@)),
            ),
            table_name(secrets::texts(columns@), json::documents(row@)),
        ).len() < usize::MAX,
    ensures
        schemas_of(final(schemas)@) == with_row(
            secrets::texts(columns@),
            schemas_of(old(schemas)@),
            json::documents(row@),
        ),
{
    let ghost names = secrets::texts(columns@);
    let ghost cells = json::documents(row@);
    let ghost start = schemas_of(schemas@);
    let table: String = field_or(columns, row, "table_name", "");
    if table.as_str().is_empty() {
        return;
    }
    let catalog: String = field_or(columns, row, "table_catalog", "hive_metastore");
    let schema: String = field_or(columns, row, "table_schema", "default");
    let mut name: String = catalog;
    name.append(".");
    name.append(schema.as_str());
    let ghost before = schemas@;
    let mut tables: OrderedMap<Vec<Json>> = match schemas.remove(name.as_str()) {
        Some(t) => t,
        None => OrderedMap::new(),
    };
    proof {
        assert(tables_of(tables@) =~= tables_in(start, name@));
    }
    let ghost known_tables = tables@;
    let mut known: Vec<Json> = match tables.remove(table.as_str()) {
        Some(c) => c,
        None => Vec::new(),
    };
    proof {
        json::lemma_documents(known@);
        assert(json::documents(known@) =~= columns_in(tables_in(start, name@), table@));
    }
    let column: Json = describe_column(columns, row, known.len());
    let ghost so_far = known@;
    known.push(column);
    proof {
        assert(known@.drop_last() =~= so_far);
    }
    tables.insert(table, known);
    proof {
        assert(tables_of(tables@) =~= tables_of(known_tables).insert(
            table@,
            json::documents(known@),
        ));
    }
    schemas.insert(name, tables);
    proof {
        assert(schemas_of(schemas@) =~= start.insert(name@, tables_of(tables@)));
    }
}

// --------------------------------------------------------------- the document

/// The description of a table.
pub open spec fn table_document(
    schema: Seq<char>,
    table: Seq<char>,
    columns: Seq<JsonView>,
) -> JsonView {
    let none = JsonView::Array(Seq::empty());
    JsonView::Object(
        Map::<Seq<char>, JsonView>::empty().insert("schema"@, JsonView::Text(schema)).insert(
            "name"@,
            JsonView::Text(table),
        ).insert("kind"@, JsonView::Text("table"@)).insert(
            "columns"@,
            JsonView::Array(columns),
        ).insert("indexes"@, none).insert("primaryKey"@, none).insert("foreignKeys"@, none),
    )
}

/// The description of a schema, with its tables by name.
pub open spec fn schema_document(
    schema: Seq<char>,
    tables: Map<Seq<char>, Seq<JsonView>>,
) -> JsonView {
    let names = ordered::sorted(tables.dom());
    JsonView::Object(
        Map::<Seq<char>, JsonView>::empty().insert("name"@, JsonView::Text(schema)).insert(
            "objects"@,
            JsonView::Array(
                Seq::new(
                    names.len(),
                    |i: int| table_document(schema, names[i], tables[names[i]]),
                ),
            ),
        ),
    )
}

/// The description of a list of schemas, by name.
pub open spec fn catalog_document(
    schemas: Map<Seq<char>, Map<Seq<char>, Seq<JsonView>>>,
) -> JsonView {
    let names = ordered::sorted(schemas.dom());
    JsonView::Object(
        Map::<Seq<char>, JsonView>::empty().insert(
            "schemas"@,
            JsonView::Array(
                Seq::new(names.len(), |i: int| schema_document(names[i], schemas[names[i]])),
            ),
        ),
    )
}

/// Describes a table.
fn describe_table(schema: &str, table: String, columns: Vec<Json>) -> (r: Json)
    ensures
        r@ == table_document(schema@, table@, json::documents(columns@)),
{
    let mut out: Vec<(String, Json)> = Vec::new();
    json::put_text(&mut out, "schema", schema);
    json::put(&mut out, "name", Json::Text(table));
    json::put_text(&mut out, "kind", "table");
    json::put(&mut out, "columns", Json::Array(columns));
    json::put(&mut out, "indexes", Json::Array(Vec::new()));
    json::put(&mut out, "primaryKey", Json::Array(Vec::new()));
    json::put(&mut out, "foreignKeys", Json::Array(Vec::new()));
    Json::Object(out)
}

/// Describes a schema.
fn describe_schema(schema: String, tables: OrderedMap<Vec<Json>>) -> (r: Json)
    ensures
        r@ == schema_document(schema@, tables_of(tables@)),
{
    let ghost all = tables_of(tables@);
    let ghost names = ordered::sorted(all.dom());
    assert(all.dom() =~= tables@.dom());
    let ghost view = tables@;
    let entries: Vec<(String, Vec<Json>)> = tables.into_entries();
    let ghost list = entries@;
    let ghost described = Seq::new(
        names.len(),
        |i: int| table_document(schema@, names[i], all[names[i]]),
    );
    let mut objects: Vec<Json> = Vec::new();
    assert(json::documents(objects@) =~= described.take(0));
    for entry in it: entries
        invariant
            it.seq() == list,
            ordered::keys_of(list) == names,
            all == tables_of(view),
            described == Seq::new(
                names.len(),
                |i: int| table_document(schema@, names[i], all[names[i]]),
            ),
            forall|i: int|
                0 <= i < list.len() ==> {
                    &&& view.contains_key((#[trigger] list[i]).0@)
                    &&& list[i].1 == view[list[i].0@]
                },
            json::documents(objects@) == described.take(it.index() as int),
    {
        let ghost i = it.index() as int;
        assert(names[i] == list[i].0@);
        let (table, columns): (String, Vec<Json>) = entry;
        let object: Json = describe_table(schema.as_str(), table, columns);
        proof {
            assert(objects@.push(object).drop_last() =~= objects@);
            assert(described.take(i + 1) =~= described.take(i).push(described[i]));
        }
        objects.push(object);
    }
    assert(described.take(list.len() as int) =~= described);
    let mut out: Vec<(String, Json)> = Vec::new();
    json::put(&mut out, "name", Json::Text(schema));
    json::put(&mut out, "objects", Json::Array(objects));
    Json::Object(out)
}

/// Describes a list of schemas.
fn describe_catalog(schemas: OrderedMap<OrderedMap<Vec<Json>>>) -> (r: Json)
    ensures
        r@ == catalog_document(schemas_of(schemas@)),
{
    let ghost all = schemas_of(schemas@);
    let ghost names = ordered::sorted(all.dom());
    assert(all.dom() =~= schemas@.dom());
    let ghost view = schemas@;
    let entries: Vec<(String, OrderedMap<Vec<Json>>)> = schemas.into_entries();
    let ghost list = entries@;
    let ghost described = Seq::new(
        names.len(),
        |i: int| schema_document(names[i], all[names[i]]),
    );
    let mut items: Vec<Json> = Vec::new();
    assert(json::documents(items@) =~= described.take(0));
    for entry in it: entries
        invariant
            it.seq() == list,
            ordered::keys_of(list) == names,
            all == schemas_of(view),
            described == Seq::new(names.len(), |i: int| schema_document(names[i], all[names[i]])),
            forall|i: int|
                0 <= i < list.len() ==> {
                    &&& view.contains_key((#[trigger] list[i]).0@)
                    &&& list[i].1 == view[list[i].0@]
                },
            json::documents(items@) == described.take(it.index() as int),
    {
        let ghost i = it.index() as int;
        assert(names[i] == list[i].0@);
        let (schema, tables): (String, OrderedMap<Vec<Json>>) = entry;
        let item: Json = describe_schema(schema, tables);
        proof {
            assert(items@.push(item).drop_last() =~= items@);
            assert(described.take(i + 1) =~= described.take(i).push(described[i]));
        }
        items.push(item);
    }
    assert(described.take(list.len() as int) =~= described);
    let mut out: Vec<(String, Json)> = Vec::new();
    json::put(&mut out, "schemas", Json::Array(items));
    Json::Object(out)
}

/// Describes the schemas, tables and columns that a list of rows is about.
pub fn metadata_from_rows(columns: &[String], rows: &[Vec<Json>]) -> (r: Json)
    ensures
        r@ == catalog_document(grouped(secrets::texts(columns@), rows::cells(rows@))),
{
    let ghost names = secrets::texts(columns@);
    let ghost all = rows::cells(rows@);
    let mut schemas: OrderedMap<OrderedMap<Vec<Json>>> = OrderedMap::new();
    let mut i: usize = 0;
    let total: usize = rows.len();
    proof {
        assert(all.take(0) =~= Seq::<Seq<JsonView>>::empty());
        assert(schemas_of(schemas@) =~= grouped(names, all.take(0)));
    }
    while i < total
        invariant
            i <= total,
            total == rows@.len(),
            names == secrets::texts(columns@),
            all == rows::cells(rows@),
            schemas_of(schemas@) == grouped(names, all.take(i as int)),
        decreases total - i,
    {
        proof {
            let row = json::documents(rows@[i as int]@);
            assert(all[i as int] == row);
            assert(all.take(i + 1).drop_last() =~= all.take(i as int));
            lemma_columns_counted(
                names,
                all.take(i as int),
                schema_name(names, row),
                table_name(names, row),
            );
        }
        add_row(&mut schemas, columns, rows[i].as_slice());
        i += 1;
    }
    assert(all.take(i as int) =~= all);
    describe_catalog(schemas)
}

// --------------------------------------------------------------------- laws

/// There are finitely many schemas, each with finitely many tables.
proof fn lemma_grouped_finite(columns: Seq<Seq<char>>, rows: Seq<Seq<JsonView>>)
    ensures
        grouped(columns, rows).dom().finite(),
        forall|schema: Seq<char>| #[trigger]
            grouped(columns, rows).contains_key(schema) ==> grouped(
                columns,
                rows,
            )[schema].dom().finite(),
    decreases rows.len(),
{
    if rows.len() > 0 {
        let before = grouped(columns, rows.drop_last());
        lemma_grouped_finite(columns, rows.drop_last());
        assert forall|schema: Seq<char>| #[trigger]
            grouped(columns, rows).contains_key(schema) implies grouped(
            columns,
            rows,
        )[schema].dom().finite() by {
            let changed = schema_name(columns, rows.last());
            assert(tables_in(before, changed).dom().finite()) by {
                assert(before.contains_key(changed) ==> before[changed].dom().finite());
            }
            if schema != changed {
                assert(before.contains_key(schema));
            } else {
                assert(before.contains_key(schema) || before != grouped(columns, rows));
            }
        }
    }
}

/// Schemas, and the tables of each schema, are described once each and in
/// ascending order of their names.
pub proof fn catalogs_are_in_order(columns: Seq<Seq<char>>, rows: Seq<Seq<JsonView>>)
    ensures
        ({
            let schemas = grouped(columns, rows);
            &&& ordered::lists(ordered::sorted(schemas.dom()), schemas.dom())
            &&& forall|schema: Seq<char>| #[trigger]
                schemas.contains_key(schema) ==> ordered::lists(
                    ordered::sorted(schemas[schema].dom()),
                    schemas[schema].dom(),
                )
        }),
{
    let schemas = grouped(columns, rows);
    lemma_grouped_finite(columns, rows);
    ordered::finite_sets_are_listed(schemas.dom());
    assert forall|schema: Seq<char>| #[trigger] schemas.contains_key(schema) implies ordered::lists(
        ordered::sorted(schemas[schema].dom()),
        schemas[schema].dom(),
    ) by {
        ordered::finite_sets_are_listed(schemas[schema].dom());
    }
}

/// The rows that are about a table, in order.
pub open spec fn rows_about(
    columns: Seq<Seq<char>>,
    rows: Seq<Seq<JsonView>>,
    schema: Seq<char>,
    table: Seq<char>,
) -> Seq<Seq<JsonView>>
    decreases rows.len(),
{
    if rows.len() == 0 {
        Seq::empty()
    } else {
        let front = rows_about(columns, rows.drop_last(), schema, table);
        if schema_name(columns, rows.last()) == schema && table_name(columns, rows.last())
            == table {
            front.push(rows.last())
        } else {
            front
        }
    }
}

/// A table is described by exactly the rows that are about it: one column for each
/// of them, in their order.
pub proof fn tables_hold_their_rows(
    columns: Seq<Seq<char>>,
    rows: Seq<Seq<JsonView>>,
    schema: Seq<char>,
    table: Seq<char>,
)
    requires
        table.len() > 0,
    ensures
        ({
            let about = rows_about(columns, rows, schema, table);
            let schemas = grouped(columns, rows);
            &&& columns_in(tables_in(schemas, schema), table) == Seq::new(
                about.len(),
                |i: int| column_document(columns, about[i], i as nat),
            )
            &&& (schemas.contains_key(schema) && schemas[schema].contains_key(table)) <==> about.len()
                > 0
        }),
    decreases rows.len(),
{
    let about = rows_about(columns, rows, schema, table);
    let described = Seq::new(about.len(), |i: int| column_document(columns, about[i], i as nat));
    let now = columns_in(tables_in(grouped(columns, rows), schema), table);
    if rows.len() > 0 {
        let front = rows.drop_last();
        tables_hold_their_rows(columns, front, schema, table);
        let before = columns_in(tables_in(grouped(columns, front), schema), table);
        if schema_name(columns, rows.last()) == schema && table_name(columns, rows.last())
            == table {
            assert(now =~= before.push(column_document(columns, rows.last(), before.len())));
        } else {
            assert(now =~= before);
        }
    }
    assert(now =~= described);
}

/// A row has in a column what stands in the cell below the first column of that
/// name, whatever the case of its letters: the text of a string, nothing for null,
/// and the JSON of any other value; and nothing where the row ends before it.
pub proof fn fields_stand_below_their_column(
    columns: Seq<Seq<char>>,
    row: Seq<JsonView>,
    name: Seq<char>,
    i: int,
)
    requires
        0 <= i < columns.len(),
        text::lowered(columns[i]) == text::lowered(name),
        forall|j: int|
            0 <= j < i ==> text::lowered(#[trigger] columns[j]) != text::lowered(name),
    ensures
        i >= row.len() ==> field_text(columns, row, name) is None,
        i < row.len() && row[i] is Null ==> field_text(columns, row, name) is None,
        i < row.len() ==> (row[i] matches JsonView::Text(s) ==> field_text(columns, row, name)
            == Some(s)),
        i < row.len() && row[i] !is Null && row[i] !is Text ==> field_text(columns, row, name)
            == Some(row[i].rendered()),
{
    lemma_first_column(columns, name, i);
}

/// The first column of a name is the one that is found.
proof fn lemma_first_column(columns: Seq<Seq<char>>, name: Seq<char>, i: int)
    requires
        0 <= i < columns.len(),
        text::lowered(columns[i]) == text::lowered(name),
        forall|j: int|
            0 <= j < i ==> text::lowered(#[trigger] columns[j]) != text::lowered(name),
    ensures
        column_index(columns, name) == Some(i),
    decreases columns.len(),
{
    if i > 0 {
        assert(text::lowered(columns[0]) != text::lowered(name));
        let rest = columns.skip(1);
        assert forall|j: int| 0 <= j < i - 1 implies text::lowered(#[trigger] rest[j])
            != text::lowered(name) by {
            assert(rest[j] == columns[j + 1]);
        }
        lemma_first_column(rest, name, i - 1);
    }
}

/// A row has nothing in a column that there is not.
pub proof fn missing_columns_have_no_text(
    columns: Seq<Seq<char>>,
    row: Seq<JsonView>,
    name: Seq<char>,
)
    requires
        forall|j: int|
            0 <= j < columns.len() ==> text::lowered(#[trigger] columns[j]) != text::lowered(name),
    ensures
        field_text(columns, row, name) is None,
{
    lemma_no_column(columns, name);
}

/// A column that there is not is not found.
proof fn lemma_no_column(columns: Seq<Seq<char>>, name: Seq<char>)
    requires
        forall|j: int|
            0 <= j < columns.len() ==> text::lowered(#[trigger] columns[j]) != text::lowered(name),
    ensures
        column_index(columns, name) is None,
    decreases columns.len(),
{
    if columns.len() > 0 {
        assert(text::lowered(columns[0]) != text::lowered(name));
        let rest = columns.skip(1);
        assert forall|j: int| 0 <= j < rest.len() implies text::lowered(#[trigger] rest[j])
            != text::lowered(name) by {
            assert(rest[j] == columns[j + 1]);
        }
        lemma_no_column(rest, name);
    }
}

/// A column is described by four members. Its name and type are what the row says,
/// or empty. It is nullable exactly where the row does not say or says YES or true
/// in letters of any case, so that a row that says NO describes a column that is not.
/// Its ordinal is the number that the row says, or else the next one in its table.
pub proof fn columns_are_described_by_their_row(
    columns: Seq<Seq<char>>,
    row: Seq<JsonView>,
    count: nat,
)
    requires
        count < i64::MAX,
    ensures
        column_document(columns, row, count) matches JsonView::Object(m) && {
            let name = field_text(columns, row, "column_name"@);
            let kind = field_text(columns, row, "data_type"@);
            let nullable = field_text(columns, row, "is_nullable"@);
            let ordinal = field_text(columns, row, "ordinal_position"@);
            &&& m.contains_key("name"@) && m.contains_key("dataType"@) && m.contains_key(
                "nullable"@,
            ) && m.contains_key("ordinal"@)
            &&& forall|k: Seq<char>| #[trigger]
                m.contains_key(k) ==> k == "name"@ || k == "dataType"@ || k == "nullable"@ || k
                    == "ordinal"@
            &&& (name matches Some(s) ==> m["name"@] == JsonView::Text(s))
            &&& (name is None ==> m["name"@] == JsonView::Text(""@))
            &&& (kind matches Some(s) ==> m["dataType"@] == JsonView::Text(s))
            &&& (kind is None ==> m["dataType"@] == JsonView::Text(""@))
            &&& m["nullable"@] is Bool
            &&& (nullable is None ==> m["nullable"@] == JsonView::Bool(true))
            &&& (nullable matches Some(s) ==> (m["nullable"@] == JsonView::Bool(true)
                <==> text::lowered(s) == "yes"@ || text::lowered(s) == "true"@))
            &&& (nullable == Some("NO"@) ==> m["nullable"@] == JsonView::Bool(false))
            &&& (ordinal matches Some(s) ==> (text::parsed_i64(s) matches Some(n)
                ==> m["ordinal"@] == JsonView::Number(text::decimal(n as int))))
            &&& (ordinal matches Some(s) ==> text::parsed_i64(s) is None ==> m["ordinal"@]
                == JsonView::Number(text::decimal((count + 1) as int)))
            &&& (ordinal is None ==> m["ordinal"@] == JsonView::Number(text::decimal((count + 1) as int)))
        },
{
    reveal_strlit("name");
    reveal_strlit("dataType");
    reveal_strlit("nullable");
    reveal_strlit("ordinal");
    assert("name"@.len() == 4 && "ordinal"@.len() == 7);
    assert("dataType"@.len() == 8 && "dataType"@[0] == 'd');
    assert("nullable"@.len() == 8 && "nullable"@[0] == 'n');
    reveal_strlit("YES");
    reveal_strlit("yes");
    reveal_strlit("true");
    reveal_strlit("NO");
    assert(text::lowered("YES"@) =~= "yes"@);
    assert(text::lowered("true"@) =~= "true"@);
    assert(text::lowered("NO"@).len() == 2 && "yes"@.len() == 3 && "true"@.len() == 4);
}

/// A row is about the schema that it says in the catalog that it says, or else about
/// `default` in `hive_metastore`; and about the table that it says, or none.
pub proof fn rows_name_their_table(columns: Seq<Seq<char>>, row: Seq<JsonView>)
    ensures
        ({
            let catalog = field_text(columns, row, "table_catalog"@);
            let schema = field_text(columns, row, "table_schema"@);
            let table = field_text(columns, row, "table_name"@);
            let name = schema_name(columns, row);
            &&& (catalog matches Some(c) ==> schema matches Some(s) ==> name == c + "."@ + s)
            &&& (catalog matches Some(c) ==> schema is None ==> name == c + "."@ + "default"@)
            &&& (catalog is None ==> (schema matches Some(s) ==> name == "hive_metastore"@ + "."@
                + s))
            &&& (catalog is None && schema is None ==> name == "hive_metastore"@ + "."@
                + "default"@)
            &&& (table matches Some(t) ==> table_name(columns, row) == t)
            &&& (table is None ==> table_name(columns, row).len() == 0)
        }),
{
    reveal_strlit("");
}

/// Whether a document describes the table `table` of `schema` with the columns
/// `described`: it names both, is a table, holds the columns in their order, and
/// says that there are no indexes and no keys.
pub open spec fn describes_table(
    document: JsonView,
    schema: Seq<char>,
    table: Seq<char>,
    described: Seq<JsonView>,
) -> bool {
    document matches JsonView::Object(m) && {
        &&& m.contains_key("schema"@) && m["schema"@] == JsonView::Text(schema)
        &&& m.contains_key("name"@) && m["name"@] == JsonView::Text(table)
        &&& m.contains_key("kind"@) && m["kind"@] == JsonView::Text("table"@)
        &&& m.contains_key("columns"@) && m["columns"@] == JsonView::Array(described)
        &&& m.contains_key("indexes"@) && m["indexes"@] == JsonView::Array(Seq::empty())
        &&& m.contains_key("primaryKey"@) && m["primaryKey"@] == JsonView::Array(Seq::empty())
        &&& m.contains_key("foreignKeys"@) && m["foreignKeys"@] == JsonView::Array(Seq::empty())
        &&& forall|k: Seq<char>| #[trigger]
            m.contains_key(k) ==> k == "schema"@ || k == "name"@ || k == "kind"@ || k
                == "columns"@ || k == "indexes"@ || k == "primaryKey"@ || k == "foreignKeys"@
    }
}

/// A table is described with its columns, as a table without indexes and keys.
pub proof fn tables_are_described(schema: Seq<char>, table: Seq<char>, columns: Seq<JsonView>)
    ensures
        describes_table(table_document(schema, table, columns), schema, table, columns),
{
    reveal_strlit("schema");
    reveal_strlit("name");
    reveal_strlit("kind");
    reveal_strlit("columns");
    reveal_strlit("indexes");
    reveal_strlit("primaryKey");
    reveal_strlit("foreignKeys");
    assert("schema"@.len() == 6 && "primaryKey"@.len() == 10 && "foreignKeys"@.len() == 11);
    assert("name"@.len() == 4 && "name"@[0] == 'n');
    assert("kind"@.len() == 4 && "kind"@[0] == 'k');
    assert("columns"@.len() == 7 && "columns"@[0] == 'c');
    assert("indexes"@.len() == 7 && "indexes"@[0] == 'i');
}

/// Whether a document describes a schema: it names it, and describes its tables once
/// each, in ascending order of their names.
pub open spec fn describes_schema(
    document: JsonView,
    schema: Seq<char>,
    tables: Map<Seq<char>, Seq<JsonView>>,
) -> bool {
    document matches JsonView::Object(m) && {
        &&& m.contains_key("name"@) && m["name"@] == JsonView::Text(schema)
        &&& m.contains_key("objects"@)
        &&& m["objects"@] matches JsonView::Array(objects) && exists|names: Seq<Seq<char>>|
            #![trigger in_order(names, tables.dom())]
            in_order(names, tables.dom()) && names.len() == objects.len() && forall|i: int|
                0 <= i < names.len() ==> describes_table(
                    #[trigger] objects[i],
                    schema,
                    names[i],
                    tables[names[i]],
                )
        &&& forall|k: Seq<char>| #[trigger] m.contains_key(k) ==> k == "name"@ || k == "objects"@
    }
}

/// Whether `names` holds each member of `set`, nothing else, and each behind all that
/// come before it.
pub open spec fn in_order(names: Seq<Seq<char>>, set: Set<Seq<char>>) -> bool {
    &&& forall|k: Seq<char>| #[trigger] set.contains(k) <==> names.contains(k)
    &&& forall|i: int, j: int|
        0 <= i < j < names.len() ==> text::precedes(#[trigger] names[i], #[trigger] names[j])
}

/// A schema is described with all its tables.
pub proof fn schemas_are_described(schema: Seq<char>, tables: Map<Seq<char>, Seq<JsonView>>)
    requires
        tables.dom().finite(),
    ensures
        describes_schema(schema_document(schema, tables), schema, tables),
{
    reveal_strlit("name");
    reveal_strlit("objects");
    assert("name"@.len() == 4 && "objects"@.len() == 7);
    ordered::finite_sets_are_listed(tables.dom());
    let names = ordered::sorted(tables.dom());
    assert(in_order(names, tables.dom()));
    let m = schema_document(schema, tables)->Object_0;
    let objects = m["objects"@]->Array_0;
    assert forall|i: int| 0 <= i < names.len() implies describes_table(
        #[trigger] objects[i],
        schema,
        names[i],
        tables[names[i]],
    ) by {
        tables_are_described(schema, names[i], tables[names[i]]);
    }
}

/// A catalog is described by its schemas alone: once each, in ascending order of
/// their names, and each with all its tables.
pub proof fn catalogs_are_described(columns: Seq<Seq<char>>, rows: Seq<Seq<JsonView>>)
    ensures
        ({
            let schemas = grouped(columns, rows);
            catalog_document(schemas) matches JsonView::Object(m) && {
                &&& m.contains_key("schemas"@)
                &&& forall|k: Seq<char>| #[trigger] m.contains_key(k) ==> k == "schemas"@
                &&& m["schemas"@] matches JsonView::Array(list) && exists|names: Seq<Seq<char>>|
                    #![trigger in_order(names, schemas.dom())]
                    in_order(names, schemas.dom()) && names.len() == list.len() && forall|i: int|
                        0 <= i < names.len() ==> describes_schema(
                            #[trigger] list[i],
                            names[i],
                            schemas[names[i]],
                        )
            }
        }),
{
    let schemas = grouped(columns, rows);
    lemma_grouped_finite(columns, rows);
    ordered::finite_sets_are_listed(schemas.dom());
    let names = ordered::sorted(schemas.dom());
    assert(in_order(names, schemas.dom()));
    let m = catalog_document(schemas)->Object_0;
    let list = m["schemas"@]->Array_0;
    assert forall|i: int| 0 <= i < names.len() implies describes_schema(
        #[trigger] list[i],
        names[i],
        schemas[names[i]],
    ) by {
        assert(names.contains(names[i]));
        assert(schemas.contains_key(names[i]));
        schemas_are_described(names[i], schemas[names[i]]);
    }
}

/// There is a schema, and a table in it, only where a row is about them: no name is
/// made up, and no table is without a name.
pub proof fn only_rows_make_tables(
    columns: Seq<Seq<char>>,
    rows: Seq<Seq<JsonView>>,
    schema: Seq<char>,
)
    requires
        grouped(columns, rows).contains_key(schema),
    ensures
        exists|i: int|
            0 <= i < rows.len() && schema_name(columns, #[trigger] rows[i]) == schema
                && table_name(columns, rows[i]).len() > 0,
        forall|table: Seq<char>| #[trigger]
            grouped(columns, rows)[schema].contains_key(table) ==> table.len() > 0 && exists|
                i: int,
            |
                0 <= i < rows.len() && schema_name(columns, #[trigger] rows[i]) == schema
                    && table_name(columns, rows[i]) == table,
    decreases rows.len(),
{
    let front = rows.drop_last();
    let before = grouped(columns, front);
    let now = grouped(columns, rows);
    let last = rows.len() - 1;
    if before.contains_key(schema) {
        only_rows_make_tables(columns, front, schema);
        let i = choose|i: int|
            0 <= i < front.len() && schema_name(columns, #[trigger] front[i]) == schema
                && table_name(columns, front[i]).len() > 0;
        assert(rows[i] == front[i]);
    } else {
        assert(schema_name(columns, rows[last]) == schema);
        assert(table_name(columns, rows[last]).len() > 0);
    }
    assert forall|table: Seq<char>| #[trigger] now[schema].contains_key(table) implies table.len()
        > 0 && exists|i: int|
        0 <= i < rows.len() && schema_name(columns, #[trigger] rows[i]) == schema && table_name(
            columns,
            rows[i],
        ) == table by {
        if before.contains_key(schema) && before[schema].contains_key(table) {
            let i = choose|i: int|
                0 <= i < front.len() && schema_name(columns, #[trigger] front[i]) == schema
                    && table_name(columns, front[i]) == table;
            assert(rows[i] == front[i]);
        } else {
            assert(schema_name(columns, rows[last]) == schema);
            assert(table_name(columns, rows[last]) == table);
        }
    }
}

/// Each row that names a table is one of the rows that are about it, in its place:
/// as many rows before it are about the table as there are columns before its own.
pub proof fn every_row_describes_a_column(
    columns: Seq<Seq<char>>,
    rows: Seq<Seq<JsonView>>,
    i: int,
)
    requires
        0 <= i < rows.len(),
        table_name(columns, rows[i]).len() > 0,
    ensures
        ({
            let schema = schema_name(columns, rows[i]);
            let table = table_name(columns, rows[i]);
            let at = rows_about(columns, rows.take(i), schema, table).len();
            let schemas = grouped(columns, rows);
            &&& schemas.contains_key(schema)
            &&& schemas[schema].contains_key(table)
            &&& at < schemas[schema][table].len()
            &&& schemas[schema][table][at as int] == column_document(columns, rows[i], at)
        }),
{
    let schema = schema_name(columns, rows[i]);
    let table = table_name(columns, rows[i]);
    let at = rows_about(columns, rows.take(i), schema, table).len();
    lemma_row_is_about(columns, rows, i);
    tables_hold_their_rows(columns, rows, schema, table);
    assert(rows_about(columns, rows, schema, table)[at as int] == rows[i]);
}

/// A row stands among the rows about its table behind those before it.
proof fn lemma_row_is_about(columns: Seq<Seq<char>>, rows: Seq<Seq<JsonView>>, i: int)
    requires
        0 <= i < rows.len(),
    ensures
        ({
            let schema = schema_name(columns, rows[i]);
            let table = table_name(columns, rows[i]);
            let at = rows_about(columns, rows.take(i), schema, table).len() as int;
            let about = rows_about(columns, rows, schema, table);
            at < about.len() && about[at] == rows[i]
        }),
    decreases rows.len(),
{
    let front = rows.drop_last();
    if i == rows.len() - 1 {
        assert(rows.take(i) =~= front);
    } else {
        lemma_row_is_about(columns, front, i);
        assert(front.take(i) =~= rows.take(i));
        assert(front[i] == rows[i]);
    }
}

} // verus!
