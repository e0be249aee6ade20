//! The page frame of the web interface.

use vstd::prelude::*;
use crate::text::{chars_of, push_str_chars, string_of};

verus! {

/// Start of every page, up to the place of extra head elements.
pub const TMPL_1: &'static str = "
<!DOCTYPE html>
<html lang=\"en\">
<head>
    <meta charset=\"UTF-8\">
    <title>Tubarr</title>
    <link rel=\"stylesheet\" href=\"/static/style.css\" type=\"text/css\">
";

/// Between the head elements and the page body.
pub const TMPL_2: &'static str = "
</head>
<body>
    <div class=\"container\">
        <header class=\"top-bar\">
            <div class=\"logo\">Tubarr</div>
            <div class=\"download-video\">
                <label for=\"video-url\">Download video:</label>
                <input type=\"text\" id=\"video-url\" placeholder=\"Enter video URL\" />
                <button onclick=\"downloadVideo()\">Download</button>
            </div>
            <div class=\"user-button\">User</div>
        </header>
        <aside class=\"side-bar\">
            <!-- Side Navigation Menu -->
            <nav>
                <ul>
                    <li><a href=\"/\">Home</a></li>
                </ul>
            </nav>
        </aside>
        <main class=\"content\">
";

/// End of every page.
pub const TMPL_3: &'static str = "
        </main>
    </div>
    <script>
        async function downloadVideo() {
            const url = document.getElementById('video-url').value;
            if (!url) {
                alert(\"Please enter a video URL.\");
                return;
            }

            try {
                const response = await fetch('/api/video', {
                    method: 'POST',
                    headers: {
                        'Content-Type': 'application/json'
                    },
                    body: JSON.stringify({ url: url })
                });

                if (response.ok) {
                    alert(\"Video download request submitted successfully.\");
                } else {
                    alert(\"Failed to submit video download request.\");
                }
            } catch (error) {
                alert(\"An error occurred: \" + error.message);
            }
        }
    </script>
</body>
</html>
";

/// A whole page: the frame around `head` elements and a `body`.
pub fn render_page(head: &str, body: &str) -> (r: String)
    ensures
        r@ == TMPL_1@ + head@ + TMPL_2@ + body@ + TMPL_3@,
{
    let mut page = chars_of(TMPL_1);
    push_str_chars(&mut page, head);
    push_str_chars(&mut page, TMPL_2);
    push_str_chars(&mut page, body);
    push_str_chars(&mut page, TMPL_3);
    string_of(&page)
}

} // verus!
