//! A RecyclerView with its Adapter for a static list: the `@for` loop becomes an
//! adapter whose items are Views.

use vstd::prelude::*;

use crate::ast::{ForLoopBlock, Markup};
use crate::text::{lit, push_lit, push_string, str_eq, str_to_chars, string_from_range};

verus! {

/// What `char::to_uppercase` yields for `c` (Unicode's uppercase mapping).
pub uninterp spec fn unicode_upper(c: char) -> Seq<char>;

/// Whether `c` is an ASCII lowercase letter.
pub open spec fn is_ascii_lower(c: char) -> bool {
    'a' <= c && c <= 'z'
}

/// The uppercase form of `c` as a string (calls `char::to_uppercase`). An
/// ASCII lowercase letter becomes its capital, any other ASCII character
/// stays as it is; beyond ASCII the mapping is Unicode's and is not stated.
#[verifier::external_body]
pub(crate) fn to_uppercase(c: char) -> (r: String)
    ensures
        r@ == unicode_upper(c),
        is_ascii_lower(c) ==> r@ == seq![((c as u32) - 32) as char],
        (c as u32) < 128 && !is_ascii_lower(c) ==> r@ == seq![c],
{
    c.to_uppercase().collect::<String>()
}

/// `s` with its first character in upper case.
pub open spec fn capitalized(s: Seq<char>) -> Seq<char> {
    if s.len() == 0 {
        Seq::empty()
    } else {
        unicode_upper(s[0]) + s.subrange(1, s.len() as int)
    }
}

/// Whether a component named `name` occurs in `ms`, or in a sequence in it.
pub open spec fn has_component_in(ms: Seq<Markup>, name: Seq<char>) -> bool
    decreases ms,
{
    if ms.len() == 0 {
        false
    } else {
        has_component_in(ms.drop_last(), name) || match ms.last() {
            Markup::Component(c) => c.name@ == name,
            Markup::Sequence(items) => has_component_in(items@, name),
            _ => false,
        }
    }
}

/// The imports of the generated file.
pub open spec fn recycler_imports() -> Seq<char> {
    "import android.content.Context\n"@ + "import android.view.View\n"@
        + "import android.view.ViewGroup\n"@ + "import androidx.compose.runtime.Composable\n"@
        + "import androidx.compose.ui.viewinterop.AndroidView\n"@
        + "import androidx.recyclerview.widget.LinearLayoutManager\n"@
        + "import androidx.recyclerview.widget.RecyclerView\n"@
        + "import android.widget.LinearLayout\n"@ + "import android.widget.TextView\n"@
        + "import android.widget.Button\n"@
        + "import com.google.android.material.card.MaterialCardView\n"@
}

/// The composable `<Collection>List` that shows the list in a RecyclerView.
pub open spec fn recycler_function(collection: Seq<char>, item: Seq<char>) -> Seq<char> {
    let adapter = capitalized(item) + "Adapter"@;
    "@Composable\n"@ + "fun "@ + capitalized(collection) + "List("@ + collection + ": List<"@
        + capitalized(item) + ">"@ + ") {\n"@ + "    AndroidView(\n"@
        + "        factory = { context ->\n"@ + "            RecyclerView(context).apply {\n"@
        + "                layoutManager = LinearLayoutManager(context)\n"@
        + "                adapter = "@ + adapter + "("@ + collection + ")\n"@ + "            }\n"@
        + "        }\n"@ + "    )\n"@ + "}\n"@
}

/// The View created for each item: a card or a column where the body has one,
/// else a `TextView`.
pub open spec fn view_creation(body: Seq<Markup>) -> Seq<char> {
    if body.len() == 0 {
        "TextView(context)"@
    } else if has_component_in(body, "Card"@) {
        "MaterialCardView(context).apply {\n            // View structure will be added here\n        }"@
    } else if has_component_in(body, "Column"@) {
        "LinearLayout(context).apply {\n            orientation = LinearLayout.VERTICAL\n        }"@
    } else {
        "TextView(context)"@
    }
}

/// The binding of an item to its views.
pub open spec fn view_binding(item: Seq<char>, body: Seq<Markup>) -> Seq<char> {
    if has_component_in(body, "Text"@) {
        "        // holder.bind("@ + item + ")\n"@
    } else {
        Seq::empty()
    }
}

/// The fields of the view holder.
pub open spec fn holder_fields(body: Seq<Markup>) -> Seq<char> {
    if has_component_in(body, "Text"@) {
        "        // val textView: TextView = itemView.findViewById(...)\n"@
    } else {
        "        // Fields for view references\n"@
    }
}

/// The adapter class for the list.
pub open spec fn adapter_class(collection: Seq<char>, item: Seq<char>, body: Seq<Markup>) -> Seq<
    char,
> {
    let adapter = capitalized(item) + "Adapter"@;
    "private class "@ + adapter + "(\n"@ + "    private val "@ + collection + ": List<"@
        + capitalized(item) + ">\n"@ + ") : RecyclerView.Adapter<"@ + adapter
        + ".ViewHolder>() {\n\n"@ + "    override fun getItemCount(): Int = "@ + collection
        + ".size\n\n"@
        + "    override fun onCreateViewHolder(parent: ViewGroup, viewType: Int): ViewHolder {\n"@
        + "        val context = parent.context\n"@ + "        val itemView = "@ + view_creation(body)
        + "\n        return ViewHolder(itemView)\n"@ + "    }\n\n"@
        + "    override fun onBindViewHolder(holder: ViewHolder, position: Int) {\n"@
        + "        val "@ + item + " = "@ + collection + "[position]\n"@
        + "        // Bind data to views\n"@ + view_binding(item, body) + "    }\n\n"@
        + "    class ViewHolder(itemView: View) : RecyclerView.ViewHolder(itemView) {\n"@
        + holder_fields(body) + "    }\n"@ + "}\n"@
}

/// The whole generated file.
pub open spec fn recycler_file(
    package: Seq<char>,
    collection: Seq<char>,
    item: Seq<char>,
    body: Seq<Markup>,
) -> Seq<char> {
    "package "@ + package + "\n\n"@ + recycler_imports() + "\n"@ + recycler_function(
        collection,
        item,
    ) + "\n\n"@ + adapter_class(collection, item, body)
}

/// The text of the `dpToPx` extension that generated code uses.
pub open spec fn dp_extension_text() -> Seq<char> {
    "\n// Extension function for DP to PX conversion\nprivate fun Int.dpToPx(): Int {\n    return (this * android.content.res.Resources.getSystem().displayMetrics.density).toInt()\n}\n"@
}

/// The `dpToPx` extension function that generated View code uses.
pub fn generate_dp_extension() -> (r: String)
    ensures
        r@ == dp_extension_text(),
{
    lit(
        "\n// Extension function for DP to PX conversion\nprivate fun Int.dpToPx(): Int {\n    return (this * android.content.res.Resources.getSystem().displayMetrics.density).toInt()\n}\n",
    )
}

/// Whether a component named `name` occurs in `items`, or in a sequence in it.
fn has_component(items: &Vec<Markup>, name: &str) -> (r: bool)
    ensures
        r == has_component_in(items@, name@),
    decreases items@,
{
    let mut i: usize = 0;
    let mut found = false;
    while i < items.len()
        invariant
            i <= items@.len(),
            found == has_component_in(items@.subrange(0, i as int), name@),
        decreases items.len() - i,
    {
        let here = match &items[i] {
            Markup::Component(c) => str_eq(c.name.as_str(), name),
            Markup::Sequence(inner) => has_component(inner, name),
            _ => false,
        };
        proof {
            let s1 = items@.subrange(0, i + 1);
            assert(s1.drop_last() =~= items@.subrange(0, i as int));
            assert(s1.last() == items@[i as int]);
        }
        found = found || here;
        i = i + 1;
    }
    proof {
        assert(items@.subrange(0, items@.len() as int) =~= items@);
    }
    found
}

/// `s` with its first character in upper case.
pub(crate) fn capitalize(s: &String) -> (r: String)
    ensures
        r@ == capitalized(s@),
{
    let chars = str_to_chars(s.as_str());
    if chars.len() == 0 {
        return String::new();
    }
    let mut r = to_uppercase(chars[0]);
    let rest = string_from_range(chars.as_slice(), 1, chars.len());
    push_string(&mut r, &rest);
    r
}

/// Generates a RecyclerView and its Adapter for a `@for` loop over a static
/// list.
pub struct RecyclerViewGenerator {
    collection_name: String,
    item_name: String,
    package: String,
}

impl RecyclerViewGenerator {
    /// The name of the list.
    pub closed spec fn collection_view(&self) -> Seq<char> {
        self.collection_name@
    }

    /// The name of an item of the list.
    pub closed spec fn item_view(&self) -> Seq<char> {
        self.item_name@
    }

    /// The package of the generated file.
    pub closed spec fn package_view(&self) -> Seq<char> {
        self.package@
    }

    /// A generator for the list `collection` of `item`s in `package`.
    pub fn new(collection: &str, item: &str, package: &str) -> (g: Self)
        ensures
            g.collection_view() == collection@,
            g.item_view() == item@,
            g.package_view() == package@,
    {
        RecyclerViewGenerator {
            collection_name: lit(collection),
            item_name: lit(item),
            package: lit(package),
        }
    }

    /// The file: package, imports, the composable that shows the list, and
    /// the adapter class.
    pub fn generate(&self, for_loop: &ForLoopBlock) -> (r: Result<String, String>)
        ensures
            r matches Ok(out) && out@ == recycler_file(
                self.package_view(),
                self.collection_view(),
                self.item_view(),
                for_loop.body@,
            ),
    {
        let mut output = lit("package ");
        push_string(&mut output, &self.package);
        push_lit(&mut output, "\n\n");
        let imports = self.generate_imports();
        push_string(&mut output, &imports);
        push_lit(&mut output, "\n");
        let function = self.generate_recyclerview_function(for_loop)?;
        push_string(&mut output, &function);
        push_lit(&mut output, "\n\n");
        let adapter = self.generate_adapter_class(for_loop)?;
        push_string(&mut output, &adapter);
        Ok(output)
    }

    /// The import lines.
    fn generate_imports(&self) -> (r: String)
        ensures
            r@ == recycler_imports(),
    {
        let mut imports = String::new();
        push_lit(&mut imports, "import android.content.Context\n");
        push_lit(&mut imports, "import android.view.View\n");
        push_lit(&mut imports, "import android.view.ViewGroup\n");
        push_lit(&mut imports, "import androidx.compose.runtime.Composable\n");
        push_lit(&mut imports, "import androidx.compose.ui.viewinterop.AndroidView\n");
        push_lit(&mut imports, "import androidx.recyclerview.widget.LinearLayoutManager\n");
        push_lit(&mut imports, "import androidx.recyclerview.widget.RecyclerView\n");
        push_lit(&mut imports, "import android.widget.LinearLayout\n");
        push_lit(&mut imports, "import android.widget.TextView\n");
        push_lit(&mut imports, "import android.widget.Button\n");
        push_lit(&mut imports, "import com.google.android.material.card.MaterialCardView\n");
        imports
    }

    /// The composable `<Collection>List(<collection>: List<Item>)` that shows
    /// the list in a RecyclerView with the adapter.
    pub fn generate_recyclerview_function(&self, for_loop: &ForLoopBlock) -> (r: Result<
        String,
        String,
    >)
        ensures
            r matches Ok(out) && out@ == recycler_function(self.collection_view(), self.item_view()),
    {
        let item_type = capitalize(&self.item_name);
        let mut adapter_name = capitalize(&self.item_name);
        push_lit(&mut adapter_name, "Adapter");
        let mut code = lit("@Composable\n");
        push_lit(&mut code, "fun ");
        let coll_type = capitalize(&self.collection_name);
        push_string(&mut code, &coll_type);
        push_lit(&mut code, "List(");
        push_string(&mut code, &self.collection_name);
        push_lit(&mut code, ": List<");
        push_string(&mut code, &item_type);
        push_lit(&mut code, ">");
        push_lit(&mut code, ") {\n");
        push_lit(&mut code, "    AndroidView(\n");
        push_lit(&mut code, "        factory = { context ->\n");
        push_lit(&mut code, "            RecyclerView(context).apply {\n");
        push_lit(&mut code, "                layoutManager = LinearLayoutManager(context)\n");
        push_lit(&mut code, "                adapter = ");
        push_string(&mut code, &adapter_name);
        push_lit(&mut code, "(");
        push_string(&mut code, &self.collection_name);
        push_lit(&mut code, ")\n");
        push_lit(&mut code, "            }\n");
        push_lit(&mut code, "        }\n");
        push_lit(&mut code, "    )\n");
        push_lit(&mut code, "}\n");
        Ok(code)
    }

    /// The adapter class: item count, view creation, binding and view holder.
    fn generate_adapter_class(&self, for_loop: &ForLoopBlock) -> (r: Result<String, String>)
        ensures
            r matches Ok(out) && out@ == adapter_class(
                self.collection_view(),
                self.item_view(),
                for_loop.body@,
            ),
    {
        let item_type = capitalize(&self.item_name);
        let mut adapter_name = capitalize(&self.item_name);
        push_lit(&mut adapter_name, "Adapter");
        let mut code = lit("private class ");
        push_string(&mut code, &adapter_name);
        push_lit(&mut code, "(\n");
        push_lit(&mut code, "    private val ");
        push_string(&mut code, &self.collection_name);
        push_lit(&mut code, ": List<");
        push_string(&mut code, &item_type);
        push_lit(&mut code, ">\n");
        push_lit(&mut code, ") : RecyclerView.Adapter<");
        push_string(&mut code, &adapter_name);
        push_lit(&mut code, ".ViewHolder>() {\n\n");
        push_lit(&mut code, "    override fun getItemCount(): Int = ");
        push_string(&mut code, &self.collection_name);
        push_lit(&mut code, ".size\n\n");
        push_lit(
            &mut code,
            "    override fun onCreateViewHolder(parent: ViewGroup, viewType: Int): ViewHolder {\n",
        );
        push_lit(&mut code, "        val context = parent.context\n");
        push_lit(&mut code, "        val itemView = ");
        let creation = self.generate_view_creation(for_loop)?;
        push_string(&mut code, &creation);
        push_lit(&mut code, "\n        return ViewHolder(itemView)\n");
        push_lit(&mut code, "    }\n\n");
        push_lit(&mut code, "    override fun onBindViewHolder(holder: ViewHolder, position: Int) {\n");
        push_lit(&mut code, "        val ");
        push_string(&mut code, &self.item_name);
        push_lit(&mut code, " = ");
        push_string(&mut code, &self.collection_name);
        push_lit(&mut code, "[position]\n");
        push_lit(&mut code, "        // Bind data to views\n");
        let binding = self.generate_view_binding(for_loop);
        push_string(&mut code, &binding);
        push_lit(&mut code, "    }\n\n");
        push_lit(
            &mut code,
            "    class ViewHolder(itemView: View) : RecyclerView.ViewHolder(itemView) {\n",
        );
        let fields = self.generate_view_holder_fields(for_loop);
        push_string(&mut code, &fields);
        push_lit(&mut code, "    }\n");
        push_lit(&mut code, "}\n");
        Ok(code)
    }

    /// The View created for each item.
    fn generate_view_creation(&self, for_loop: &ForLoopBlock) -> (r: Result<String, String>)
        ensures
            r matches Ok(out) && out@ == view_creation(for_loop.body@),
    {
        if for_loop.body.len() == 0 {
            return Ok(lit("TextView(context)"));
        }
        let has_card = has_component(&for_loop.body, "Card");
        let has_column = has_component(&for_loop.body, "Column");
        if has_card {
            Ok(
                lit(
                    "MaterialCardView(context).apply {\n            // View structure will be added here\n        }",
                ),
            )
        } else if has_column {
            Ok(
                lit(
                    "LinearLayout(context).apply {\n            orientation = LinearLayout.VERTICAL\n        }",
                ),
            )
        } else {
            Ok(lit("TextView(context)"))
        }
    }

    /// The binding of an item to its views.
    fn generate_view_binding(&self, for_loop: &ForLoopBlock) -> (r: String)
        ensures
            r@ == view_binding(self.item_view(), for_loop.body@),
    {
        let mut code = String::new();
        if has_component(&for_loop.body, "Text") {
            push_lit(&mut code, "        // holder.bind(");
            push_string(&mut code, &self.item_name);
            push_lit(&mut code, ")\n");
        }
        code
    }

    /// The fields of the view holder.
    fn generate_view_holder_fields(&self, for_loop: &ForLoopBlock) -> (r: String)
        ensures
            r@ == holder_fields(for_loop.body@),
    {
        let mut fields = String::new();
        proof {
            reveal_strlit("        // val textView: TextView = itemView.findViewById(...)\n");
        }
        if has_component(&for_loop.body, "Text") {
            push_lit(&mut fields, "        // val textView: TextView = itemView.findViewById(...)\n");
        }
        if fields.as_str().unicode_len() == 0 {
            push_lit(&mut fields, "        // Fields for view references\n");
        }
        fields
    }
}

} // verus!
