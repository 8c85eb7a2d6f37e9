//! What has to happen for one capture file: which program is started with
//! which arguments, which header the table gets, and where the table goes.
//!
//! The header and the extraction arguments are built from the same list of
//! columns, in the same order: the decoding tool prints the values of one
//! record in the order of its `-e` arguments, so the n-th value of a row
//! belongs under the n-th header cell.

use crate::catalog::{Config, Field, FieldView, Tshark, TsharkView};
use crate::error::ConvertError;
use crate::naming::{output_name, output_name_of};
use vstd::prelude::*;
use vstd::string::*;

verus! {

/// The header cells: `TIMESTAMP` first where a timestamp column is asked
/// for, then the name of each column in catalog order.
pub open spec fn header_cells(fields: Seq<FieldView>, timestamp: bool) -> Seq<Seq<char>> {
    let names = Seq::new(fields.len(), |i: int| fields[i].name);
    if timestamp {
        seq!["TIMESTAMP"@] + names
    } else {
        names
    }
}

/// The expressions handed to the tool, one for each header cell and in the
/// order of the header cells.
pub open spec fn extraction_exprs(fields: Seq<FieldView>, timestamp: bool) -> Seq<Seq<char>> {
    let exprs = Seq::new(fields.len(), |i: int| fields[i].expression);
    if timestamp {
        seq!["frame.time_epoch"@] + exprs
    } else {
        exprs
    }
}

/// The expression that makes the tool keep only the records of a category.
pub open spec fn category_filter_of(category: Seq<char>) -> Seq<char> {
    "asterix.category=="@ + category
}

/// One `-e` flag and its expression for each requested column.
pub open spec fn extraction_args(exprs: Seq<Seq<char>>) -> Seq<Seq<char>> {
    Seq::new(
        2 * exprs.len(),
        |i: int|
            if i % 2 == 0 {
                "-e"@
            } else {
                exprs[i / 2]
            },
    )
}

/// The full argument list of one invocation: the input file, the fixed
/// parameters, the category filter, then the extraction arguments.
pub open spec fn tool_args(
    parameters: Seq<Seq<char>>,
    filename: Seq<char>,
    category: Seq<char>,
    fields: Seq<FieldView>,
    timestamp: bool,
) -> Seq<Seq<char>> {
    seq!["-r"@, filename] + parameters + seq!["-Y"@, category_filter_of(category)]
        + extraction_args(extraction_exprs(fields, timestamp))
}

/// Everything that is decided before the tool is started for one file.
#[derive(Debug, PartialEq, Eq)]
pub struct Plan {
    /// The program to start.
    pub program: String,
    /// Its arguments.
    pub args: Vec<String>,
    /// The file that receives the table.
    pub outfile: String,
    /// The cells of the header row.
    pub headers: Vec<String>,
}

/// What a [`Plan`] stands for in contracts.
pub struct PlanView {
    pub program: Seq<char>,
    pub args: Seq<Seq<char>>,
    pub outfile: Seq<char>,
    pub headers: Seq<Seq<char>>,
}

impl View for Plan {
    type V = PlanView;

    open spec fn view(&self) -> PlanView {
        PlanView {
            program: self.program@,
            args: self.args.deep_view(),
            outfile: self.outfile@,
            headers: self.headers.deep_view(),
        }
    }
}

/// The plan for a file of a category with the given columns.
pub open spec fn planned(
    tool: TsharkView,
    fields: Seq<FieldView>,
    filename: Seq<char>,
    base_name: Seq<char>,
    category: Seq<char>,
    timestamp: bool,
) -> PlanView {
    PlanView {
        program: tool.path,
        args: tool_args(tool.parameters, filename, category, fields, timestamp),
        outfile: output_name_of(base_name),
        headers: header_cells(fields, timestamp),
    }
}

/// Appends a text to a list of texts.
fn push_text(list: &mut Vec<String>, text: String)
    ensures
        final(list).deep_view() == old(list).deep_view().push(text@),
{
    list.push(text);
    assert(list.deep_view() =~= old(list).deep_view().push(text@));
}

/// Builds the header row for the columns of a category.
pub fn build_headers(fields: &Vec<Field>, timestamp: bool) -> (headers: Vec<String>)
    ensures
        headers.deep_view() == header_cells(fields.deep_view(), timestamp),
{
    let mut headers: Vec<String> = Vec::new();
    assert(headers.deep_view() =~= Seq::<Seq<char>>::empty());
    if timestamp {
        push_text(&mut headers, String::from_str("TIMESTAMP"));
    }
    let ghost lead = headers.deep_view();
    let ghost cols = fields.deep_view();
    let mut i: usize = 0;
    while i < fields.len()
        invariant
            i <= fields.len(),
            cols == fields.deep_view(),
            headers.deep_view() == lead + Seq::new(i as nat, |k: int| cols[k].name),
        decreases fields.len() - i,
    {
        push_text(&mut headers, fields[i].key.clone());
        i = i + 1;
        assert(headers.deep_view() =~= lead + Seq::new(i as nat, |k: int| cols[k].name));
    }
    assert(headers.deep_view() =~= header_cells(cols, timestamp));
    headers
}

/// Builds the filter expression for a category.
pub fn category_filter(category: &str) -> (filter: String)
    ensures
        filter@ == category_filter_of(category@),
{
    String::from_str("asterix.category==").concat(category)
}

/// Builds the argument list for one file.
pub fn build_args(
    tool: &Tshark,
    filename: &str,
    category: &str,
    fields: &Vec<Field>,
    timestamp: bool,
) -> (args: Vec<String>)
    ensures
        args.deep_view() == tool_args(
            tool@.parameters,
            filename@,
            category@,
            fields.deep_view(),
            timestamp,
        ),
{
    let mut args: Vec<String> = Vec::new();
    assert(args.deep_view() =~= Seq::<Seq<char>>::empty());
    push_text(&mut args, String::from_str("-r"));
    push_text(&mut args, String::from_str(filename));
    let ghost params = tool.parameters.deep_view();
    let ghost start = args.deep_view();
    assert(start =~= seq!["-r"@, filename@]);
    let mut p: usize = 0;
    while p < tool.parameters.len()
        invariant
            p <= tool.parameters.len(),
            params == tool.parameters.deep_view(),
            args.deep_view() == start + params.take(p as int),
        decreases tool.parameters.len() - p,
    {
        push_text(&mut args, tool.parameters[p].clone());
        p = p + 1;
        assert(args.deep_view() =~= start + params.take(p as int));
    }
    assert(params.take(p as int) =~= params);
    push_text(&mut args, String::from_str("-Y"));
    push_text(&mut args, category_filter(category));
    let ghost fixed = args.deep_view();
    assert(fixed =~= start + params + seq!["-Y"@, category_filter_of(category@)]);
    let ghost cols = fields.deep_view();
    let ghost exprs = extraction_exprs(cols, timestamp);
    let ghost lead: nat = if timestamp {
        1
    } else {
        0
    };
    if timestamp {
        push_text(&mut args, String::from_str("-e"));
        push_text(&mut args, String::from_str("frame.time_epoch"));
    }
    assert(args.deep_view() =~= fixed + extraction_args(exprs.take(lead as int)));
    let mut i: usize = 0;
    while i < fields.len()
        invariant
            i <= fields.len(),
            cols == fields.deep_view(),
            exprs == extraction_exprs(cols, timestamp),
            lead == if timestamp {
                1nat
            } else {
                0nat
            },
            args.deep_view() == fixed + extraction_args(exprs.take(lead + i)),
        decreases fields.len() - i,
    {
        push_text(&mut args, String::from_str("-e"));
        push_text(&mut args, fields[i].value.clone());
        i = i + 1;
        assert(args.deep_view() =~= fixed + extraction_args(exprs.take(lead + i)));
    }
    assert(exprs.take(lead + i) =~= exprs);
    args
}

/// Plans the conversion of one capture file.
///
/// `filename` is the path handed to the decoding tool and `base_name` the
/// file's name within its directory. The conversion fails, for this file
/// only, where the catalog does not know the category.
pub fn plan_conversion(
    cfg: &Config,
    filename: &str,
    base_name: &str,
    category: &str,
    timestamp: bool,
) -> (plan: Result<Plan, ConvertError>)
    ensures
        plan is Ok <==> cfg.catalog().contains_key(category@),
        plan matches Ok(p) ==> p@ == planned(
            cfg.tool(),
            cfg.catalog()[category@],
            filename@,
            base_name@,
            category@,
            timestamp,
        ),
        plan matches Err(e) ==> e matches ConvertError::CategoryNotFound { category: unknown }
            && unknown@ == category@,
{
    match cfg.fields_of(category) {
        None => Err(ConvertError::CategoryNotFound { category: String::from_str(category) }),
        Some(fields) => {
            let tool = cfg.tshark();
            Ok(
                Plan {
                    program: tool.path.clone(),
                    args: build_args(tool, filename, category, fields, timestamp),
                    outfile: output_name(base_name),
                    headers: build_headers(fields, timestamp),
                },
            )
        },
    }
}

/// With a timestamp column, the header of a category with columns
/// `f1 .. fn` is `TIMESTAMP`, then the names of `f1 .. fn` in that order.
pub proof fn lemma_timestamp_header(fields: Seq<FieldView>)
    ensures
        header_cells(fields, true).len() == fields.len() + 1,
        header_cells(fields, true)[0] == "TIMESTAMP"@,
        forall|i: int|
            0 <= i < fields.len() ==> #[trigger] header_cells(fields, true)[i + 1]
                == fields[i].name,
{
}

/// Without a timestamp column, the header holds the names of the columns in
/// catalog order and nothing else; a category without columns has a header
/// without cells.
pub proof fn lemma_plain_header(fields: Seq<FieldView>)
    ensures
        header_cells(fields, false).len() == fields.len(),
        forall|i: int|
            0 <= i < fields.len() ==> #[trigger] header_cells(fields, false)[i] == fields[i].name,
{
}

/// Header and extraction arguments correspond by position: there are as
/// many extraction arguments as header cells, the k-th of them stands at
/// a fixed place after the input file, the fixed parameters and the filter,
/// and it extracts the column that the k-th header cell names.
pub proof fn lemma_columns_correspond(
    parameters: Seq<Seq<char>>,
    filename: Seq<char>,
    category: Seq<char>,
    fields: Seq<FieldView>,
    timestamp: bool,
    k: int,
)
    requires
        0 <= k < header_cells(fields, timestamp).len(),
    ensures
        ({
            let headers = header_cells(fields, timestamp);
            let exprs = extraction_exprs(fields, timestamp);
            let args = tool_args(parameters, filename, category, fields, timestamp);
            let first = parameters.len() as int + 4;
            let lead: int = if timestamp {
                1
            } else {
                0
            };
            &&& exprs.len() == headers.len()
            &&& args.len() == first + 2 * headers.len()
            &&& args[first + 2 * k] == "-e"@
            &&& args[first + 2 * k + 1] == exprs[k]
            &&& k < lead ==> headers[k] == "TIMESTAMP"@ && exprs[k] == "frame.time_epoch"@
            &&& k >= lead ==> headers[k] == fields[k - lead].name && exprs[k] == fields[k
                - lead].expression
        }),
{
}

/// The arguments before the extraction arguments: the input file, the fixed
/// parameters verbatim, and the filter of the category.
pub proof fn lemma_fixed_args(
    parameters: Seq<Seq<char>>,
    filename: Seq<char>,
    category: Seq<char>,
    fields: Seq<FieldView>,
    timestamp: bool,
)
    ensures
        ({
            let args = tool_args(parameters, filename, category, fields, timestamp);
            let n = parameters.len() as int;
            &&& args.len() >= n + 4
            &&& args[0] == "-r"@
            &&& args[1] == filename
            &&& forall|i: int| 0 <= i < n ==> #[trigger] args[i + 2] == parameters[i]
            &&& args[n + 2] == "-Y"@
            &&& args[n + 3] == category_filter_of(category)
        }),
{
}

/// Planning is repeatable: two plans for the same file, category and
/// timestamp choice, made from the same tool settings and columns, agree in
/// program, arguments, output file and header.
pub proof fn lemma_plan_repeats(
    tool: TsharkView,
    fields: Seq<FieldView>,
    filename: Seq<char>,
    base_name: Seq<char>,
    category: Seq<char>,
    timestamp: bool,
    first: Plan,
    second: Plan,
)
    requires
        first@ == planned(tool, fields, filename, base_name, category, timestamp),
        second@ == planned(tool, fields, filename, base_name, category, timestamp),
    ensures
        first@ == second@,
{
}

} // verus!
