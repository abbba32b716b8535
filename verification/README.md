# ggc

GQL is a small grammar-of-graphics language:

```
MAP x=:day, y=:price, group=:ticker, color=:ticker
GEOM LINE
FACET WRAP :market COLUMNS 2
TITLE "Prices"
```

`src/` is a verified library: the lexer and parser of GQL, the compiler
from programs to blueprints, the decisions taken before drawing (which
columns feed which aesthetics, which scales a plot gets, how rows split into
facet panels), the layout trees of plots, CSV reading, and text handling for
SVG. Each public function states its behaviour in its contract, and laws that
relate functions are stated and proved as proof functions.

`app/` is the `ggc` program around it: it reads the script, theme files and
the CSV file, fits the scales and draws the elements (floating point), and
writes SVG or PNG.

```
ggc script.gg data.csv --output plot.svg [--width N] [--height N]
ggc script.gg
```
