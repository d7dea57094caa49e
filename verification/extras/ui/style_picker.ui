<?xml version="1.0" encoding="UTF-8"?>
<interface>
  <requires lib="gtk" version="4.10"/>
  <object class="GtkBox" id="button">
    <property name="width-request">18</property>
    <property name="height-request">18</property>
    <property name="halign">center</property>
    <property name="valign">center</property>
    <property name="can-focus">false</property>
    <property name="tooltip-text">Customize appearance</property>
    <style><class name="style-picker-button"/></style>
    <child><object class="GtkImage">
      <property name="icon-name">color-symbolic</property>
      <property name="pixel-size">15</property>
      <style><class name="bottom-icon-image"/></style>
    </object></child>
  </object>
  <object class="GtkPopover" id="popover">
    <property name="position">top</property>
    <style><class name="style-picker-popover"/></style>
    <child>
      <object class="GtkStack" id="pages">
        <property name="transition-type">crossfade</property>
        <property name="transition-duration">180</property>
        <property name="vhomogeneous">false</property>
        <property name="margin-start">20</property>
        <property name="margin-end">20</property>
        <property name="margin-top">20</property>
        <property name="margin-bottom">20</property>
        <style><class name="style-picker-content"/></style>
        <child><object class="GtkStackPage">
          <property name="name">main</property>
          <property name="child">
            <object class="GtkBox">
              <property name="orientation">vertical</property>
              <property name="spacing">16</property>
              <child><object class="GtkLabel">
                <property name="label">Customize Appearance</property>
                <property name="xalign">0</property>
                <style><class name="style-picker-title"/></style>
              </object></child>
              <child>
                <object class="GtkBox">
                  <property name="orientation">vertical</property>
                  <property name="spacing">12</property>
                  <child><object class="GtkLabel">
                    <property name="label">Presets</property>
                    <property name="xalign">0</property>
                    <property name="margin-top">4</property>
                    <style><class name="style-picker-presets-label"/></style>
                  </object></child>
                  <child><object class="GtkBox" id="colors">
                    <property name="spacing">8</property>
                    <property name="halign">center</property>
                    <style><class name="style-picker-grid"/></style>
                  </object></child>
                  <child>
                    <object class="GtkBox">
                      <property name="spacing">8</property>
                      <child><object class="GtkLabel">
                        <property name="label">Accent color</property>
                        <property name="xalign">0</property>
                        <property name="hexpand">true</property>
                        <style><class name="style-picker-presets-label"/></style>
                      </object></child>
                      <child><object class="GtkLabel">
                        <property name="label">Auto</property>
                        <style><class name="style-picker-presets-label"/></style>
                      </object></child>
                      <child><object class="GtkSwitch" id="auto"/></child>
                    </object>
                  </child>
                  <child><object class="GtkBox" id="accents">
                    <property name="spacing">8</property>
                    <property name="halign">center</property>
                    <style><class name="style-picker-grid"/></style>
                  </object></child>
                </object>
              </child>
              <child>
                <object class="GtkBox">
                  <property name="orientation">vertical</property>
                  <property name="spacing">12</property>
                  <child><object class="GtkLabel">
                    <property name="label">Textures</property>
                    <property name="xalign">0</property>
                    <style><class name="style-picker-presets-label"/></style>
                  </object></child>
                  <child><object class="GtkBox" id="textures">
                    <property name="spacing">8</property>
                    <style><class name="style-picker-grid"/></style>
                  </object></child>
                  <child>
                    <object class="GtkBox" id="intensity_row">
                      <property name="spacing">8</property>
                      <property name="halign">start</property>
                      <property name="margin-top">2</property>
                      <child><object class="GtkLabel">
                        <property name="label">Intensity</property>
                        <property name="xalign">0</property>
                        <style><class name="style-picker-presets-label"/><class name="style-picker-intensity-label"/></style>
                      </object></child>
                      <child><object class="GtkScale" id="intensity">
                        <property name="width-request">150</property>
                        <property name="height-request">24</property>
                        <property name="draw-value">false</property>
                        <property name="adjustment"><object class="GtkAdjustment">
                          <property name="upper">1</property>
                          <property name="step-increment">0.05</property>
                        </object></property>
                        <style><class name="style-picker-intensity-slider"/></style>
                      </object></child>
                    </object>
                  </child>
                </object>
              </child>
            </object>
          </property>
        </object></child>
        <child><object class="GtkStackPage">
          <property name="name">wheel</property>
          <property name="child">
            <object class="GtkBox">
              <property name="orientation">vertical</property>
              <property name="spacing">12</property>
              <property name="halign">center</property>
              <property name="valign">center</property>
              <property name="hexpand">true</property>
              <child><object class="GtkDrawingArea" id="wheel">
                <property name="width-request">200</property>
                <property name="height-request">200</property>
                <property name="halign">center</property>
                <style><class name="style-picker-color-wheel"/></style>
              </object></child>
              <child><object class="GtkScale" id="brightness">
                <property name="width-request">200</property>
                <property name="halign">center</property>
                <property name="draw-value">false</property>
                <property name="adjustment"><object class="GtkAdjustment">
                  <property name="upper">0.3</property>
                  <property name="value">0.3</property>
                  <property name="step-increment">0.005</property>
                </object></property>
                <style><class name="style-picker-brightness-slider"/></style>
              </object></child>
              <child>
                <object class="GtkBox">
                  <property name="spacing">8</property>
                  <property name="halign">center</property>
                  <child><object class="GtkLabel">
                    <property name="label">#</property>
                    <style><class name="style-picker-hex-label"/></style>
                  </object></child>
                  <child><object class="GtkEntry" id="hex">
                    <property name="placeholder-text">RRGGBB</property>
                    <property name="max-length">6</property>
                    <property name="width-chars">8</property>
                    <style><class name="style-picker-hex-entry"/></style>
                  </object></child>
                </object>
              </child>
              <child><object class="GtkButton" id="apply">
                <property name="label">Apply</property>
                <property name="halign">center</property>
                <style><class name="app-flat-button"/><class name="actions-add-button"/></style>
              </object></child>
            </object>
          </property>
        </object></child>
      </object>
    </child>
  </object>
</interface>
